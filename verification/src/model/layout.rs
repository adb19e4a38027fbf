//! How a transformer is assembled from named weights: which tensors make
//! each layer, which checks they must pass, and the attention parameters
//! estimated from their shapes. The weights themselves (floating point)
//! are moved by the caller, following the plan.

use vstd::hash_map::StringHashMap;
use vstd::prelude::*;

use crate::tensor::DataType;
use crate::text::{decimal, decimal_string, lemma_decimal_digits, lemma_decimal_injective};

verus! {

broadcast use vstd::string::group_string_axioms;

/// The name, shape and element type of one weight tensor.
pub struct WeightInfo {
    pub name: String,
    pub shape: Vec<usize>,
    pub dtype: DataType,
}

/// The weights of one expert of a mixture-of-experts layer.
#[derive(Debug, Clone, PartialEq)]
pub struct ExpertKeys {
    pub w1: String,
    pub w2: String,
    pub w3: String,
}

/// The feed-forward part of a layer.
#[derive(Debug, Clone, PartialEq)]
pub enum FeedForwardPlan {
    /// A routed mixture of experts, with its gate.
    Experts { gate: String, experts: Vec<ExpertKeys>, top_k: usize },
    /// A plain gated MLP, run as the only expert of a mixture that picks
    /// `top_k` (1) expert behind an all-zero router gate of shape
    /// `zero_gate_shape` (`[hidden_size, 1]`).
    Dense {
        gate_proj: String,
        down_proj: String,
        up_proj: String,
        zero_gate_shape: Vec<usize>,
        top_k: usize,
    },
}

/// The weights and attention parameters of one transformer layer.
#[derive(Debug, Clone, PartialEq)]
pub struct LayerPlan {
    pub input_norm: String,
    pub post_norm: String,
    pub q_proj: String,
    pub k_proj: String,
    pub v_proj: String,
    pub o_proj: String,
    pub hidden_size: usize,
    pub num_heads: usize,
    pub head_dim: usize,
    pub num_kv_heads: usize,
    pub feed_forward: FeedForwardPlan,
}

/// Which weights make the model, layer by layer. Every projection named
/// here is stored as `[out, in]` and is transposed when loaded.
#[derive(Debug, Clone, PartialEq)]
pub struct ModelPlan {
    pub embed: String,
    pub layers: Vec<LayerPlan>,
    pub norm: String,
    pub lm_head: String,
}

/// Why no model can be assembled.
#[derive(Debug, Clone, PartialEq)]
pub enum PlanFailure {
    /// A weight is missing or malformed; the message says which.
    Error(String),
    /// The weights are inconsistent in a way the loader does not survive
    /// (the message is the runtime's panic message).
    Abort(String),
}

/// An expert's weight names, as characters.
pub struct ExpertKeysV {
    pub w1: Seq<char>,
    pub w2: Seq<char>,
    pub w3: Seq<char>,
}

/// A feed-forward plan with names as characters.
pub enum FeedForwardV {
    Experts { gate: Seq<char>, experts: Seq<ExpertKeysV>, top_k: nat },
    Dense {
        gate_proj: Seq<char>,
        down_proj: Seq<char>,
        up_proj: Seq<char>,
        zero_gate_shape: Seq<usize>,
        top_k: nat,
    },
}

/// A layer plan with names as characters.
pub struct LayerV {
    pub input_norm: Seq<char>,
    pub post_norm: Seq<char>,
    pub q_proj: Seq<char>,
    pub k_proj: Seq<char>,
    pub v_proj: Seq<char>,
    pub o_proj: Seq<char>,
    pub hidden_size: nat,
    pub num_heads: nat,
    pub head_dim: nat,
    pub num_kv_heads: nat,
    pub feed_forward: FeedForwardV,
}

/// A model plan with names as characters.
pub struct ModelV {
    pub embed: Seq<char>,
    pub layers: Seq<LayerV>,
    pub norm: Seq<char>,
    pub lm_head: Seq<char>,
}

impl View for ExpertKeys {
    type V = ExpertKeysV;

    open spec fn view(&self) -> ExpertKeysV {
        ExpertKeysV { w1: self.w1@, w2: self.w2@, w3: self.w3@ }
    }
}

/// The views of a sequence of expert plans.
pub open spec fn experts_view(es: Seq<ExpertKeys>) -> Seq<ExpertKeysV> {
    es.map_values(|e: ExpertKeys| e@)
}

impl View for FeedForwardPlan {
    type V = FeedForwardV;

    open spec fn view(&self) -> FeedForwardV {
        match self {
            FeedForwardPlan::Experts { gate, experts, top_k } => FeedForwardV::Experts {
                gate: gate@,
                experts: experts_view(experts@),
                top_k: *top_k as nat,
            },
            FeedForwardPlan::Dense { gate_proj, down_proj, up_proj, zero_gate_shape, top_k } => FeedForwardV::Dense {
                gate_proj: gate_proj@,
                down_proj: down_proj@,
                up_proj: up_proj@,
                zero_gate_shape: zero_gate_shape@,
                top_k: *top_k as nat,
            },
        }
    }
}

impl View for LayerPlan {
    type V = LayerV;

    open spec fn view(&self) -> LayerV {
        LayerV {
            input_norm: self.input_norm@,
            post_norm: self.post_norm@,
            q_proj: self.q_proj@,
            k_proj: self.k_proj@,
            v_proj: self.v_proj@,
            o_proj: self.o_proj@,
            hidden_size: self.hidden_size as nat,
            num_heads: self.num_heads as nat,
            head_dim: self.head_dim as nat,
            num_kv_heads: self.num_kv_heads as nat,
            feed_forward: self.feed_forward@,
        }
    }
}

/// The views of a sequence of layer plans.
pub open spec fn layers_view(ls: Seq<LayerPlan>) -> Seq<LayerV> {
    ls.map_values(|l: LayerPlan| l@)
}

impl View for ModelPlan {
    type V = ModelV;

    open spec fn view(&self) -> ModelV {
        ModelV {
            embed: self.embed@,
            layers: layers_view(self.layers@),
            norm: self.norm@,
            lm_head: self.lm_head@,
        }
    }
}

/// The outcome of a step of the assembly: a value and the weights not yet
/// used, an error message, or an abort.
pub enum Out<T> {
    Done(T, Map<Seq<char>, usize>),
    Fail(Seq<char>),
    Abort(Seq<char>),
}

/// The weights by name: each name maps to the position of its (last)
/// entry.
pub open spec fn weight_index(es: Seq<WeightInfo>) -> Map<Seq<char>, usize>
    decreases es.len(),
{
    if es.len() == 0 {
        Map::empty()
    } else {
        weight_index(es.drop_last()).insert(es.last().name@, (es.len() - 1) as usize)
    }
}

/// Whether the index map is finite, no larger than `es`, and points
/// into `es`.
pub open spec fn index_ok(es: Seq<WeightInfo>, m: Map<Seq<char>, usize>) -> bool {
    &&& m.dom().finite()
    &&& m.dom().len() <= es.len()
    &&& forall|k: Seq<char>| #[trigger] m.contains_key(k) ==> m[k] < es.len()
}

/// The name of a weight of layer `i`: `model.layers.<i>` and `suffix`.
pub open spec fn layer_key(i: nat, suffix: Seq<char>) -> Seq<char> {
    "model.layers."@ + decimal(i) + suffix
}

/// The name of weight `w` of expert `j` of layer `i`.
pub open spec fn expert_key(i: nat, j: nat, w: Seq<char>) -> Seq<char> {
    layer_key(i, ".block_sparse_moe.experts."@ + decimal(j) + "."@ + w + ".weight"@)
}

/// Why the weight at position `idx` cannot be transposed, if it cannot:
/// it must be two-dimensional, and of element type `Float32`.
pub open spec fn transpose_error(es: Seq<WeightInfo>, idx: usize) -> Option<Seq<char>> {
    if es[idx as int].shape@.len() != 2 {
        Some("Only 2D tensors can be transposed"@)
    } else if es[idx as int].dtype != DataType::Float32 {
        Some("currently only Float32 is supported"@)
    } else {
        None
    }
}

/// The panic message of `Option::unwrap` on `None`.
pub open spec fn unwrap_none_message() -> Seq<char> {
    "called `Option::unwrap()` on a `None` value"@
}

/// The panic message of a division by zero.
pub open spec fn divide_by_zero_message() -> Seq<char> {
    "attempt to divide by zero"@
}

/// The experts of layer `i` from expert `j` on: each expert whose `w1`
/// exists takes its `w1`, `w2` and `w3` (a missing `w2` or `w3` aborts),
/// each of which must be transposable.
pub open spec fn plan_experts(es: Seq<WeightInfo>, m: Map<Seq<char>, usize>, i: nat, j: nat) -> Out<
    Seq<ExpertKeysV>,
>
    decreases m.dom().len(),
    when m.dom().finite()
{
    let k1 = expert_key(i, j, "w1"@);
    let k2 = expert_key(i, j, "w2"@);
    let k3 = expert_key(i, j, "w3"@);
    if !m.contains_key(k1) {
        Out::Done(Seq::empty(), m)
    } else if transpose_error(es, m[k1]) is Some {
        Out::Fail(transpose_error(es, m[k1])->0)
    } else if !m.remove(k1).contains_key(k2) {
        Out::Abort(unwrap_none_message())
    } else if transpose_error(es, m[k2]) is Some {
        Out::Fail(transpose_error(es, m[k2])->0)
    } else if !m.remove(k1).remove(k2).contains_key(k3) {
        Out::Abort(unwrap_none_message())
    } else if transpose_error(es, m[k3]) is Some {
        Out::Fail(transpose_error(es, m[k3])->0)
    } else {
        let rest = m.remove(k1).remove(k2).remove(k3);
        match plan_experts(es, rest, i, j + 1) {
            Out::Done(more, left) => Out::Done(
                seq![ExpertKeysV { w1: k1, w2: k2, w3: k3 }] + more,
                left,
            ),
            Out::Fail(e) => Out::Fail(e),
            Out::Abort(e) => Out::Abort(e),
        }
    }
}

/// The feed-forward part of layer `i`: a mixture of experts when the
/// layer has a router gate, else a dense MLP.
pub open spec fn plan_feed_forward(es: Seq<WeightInfo>, m: Map<Seq<char>, usize>, i: nat, hidden: nat) -> Out<
    FeedForwardV,
> {
    let kg = layer_key(i, ".block_sparse_moe.gate.weight"@);
    let kgp = layer_key(i, ".mlp.gate_proj.weight"@);
    let kdp = layer_key(i, ".mlp.down_proj.weight"@);
    let kup = layer_key(i, ".mlp.up_proj.weight"@);
    if m.contains_key(kg) {
        if transpose_error(es, m[kg]) is Some {
            Out::Fail(transpose_error(es, m[kg])->0)
        } else {
            match plan_experts(es, m.remove(kg), i, 0) {
                Out::Done(experts, left) => Out::Done(
                    FeedForwardV::Experts { gate: kg, experts, top_k: 2 },
                    left,
                ),
                Out::Fail(e) => Out::Fail(e),
                Out::Abort(e) => Out::Abort(e),
            }
        }
    } else if !m.contains_key(kgp) {
        Out::Fail("mlp.gate_proj weight missing"@)
    } else if !m.remove(kgp).contains_key(kdp) {
        Out::Fail("mlp.down_proj weight missing"@)
    } else if !m.remove(kgp).remove(kdp).contains_key(kup) {
        Out::Fail("mlp.up_proj weight missing"@)
    } else if transpose_error(es, m[kgp]) is Some {
        Out::Fail(transpose_error(es, m[kgp])->0)
    } else if transpose_error(es, m[kdp]) is Some {
        Out::Fail(transpose_error(es, m[kdp])->0)
    } else if transpose_error(es, m[kup]) is Some {
        Out::Fail(transpose_error(es, m[kup])->0)
    } else {
        Out::Done(
            FeedForwardV::Dense {
                gate_proj: kgp,
                down_proj: kdp,
                up_proj: kup,
                zero_gate_shape: seq![hidden as usize, 1usize],
                top_k: 1,
            },
            m.remove(kgp).remove(kdp).remove(kup),
        )
    }
}


/// The number of attention heads assumed for every layer.
pub const NUM_HEADS: usize = 32;

/// Layer `i`, whose input norm weight exists: its norms, the four
/// attention projections (which must be transposable), the attention
/// parameters estimated from the query and key shapes (`hidden_size` from
/// the query projection, 32 heads, `head_dim = hidden_size / 32`, and as
/// many key/value heads as the key projection's output holds), and its
/// feed-forward part.
pub open spec fn plan_layer(es: Seq<WeightInfo>, m: Map<Seq<char>, usize>, i: nat) -> Out<LayerV> {
    let kin = layer_key(i, ".input_layernorm.weight"@);
    let kpost = layer_key(i, ".post_attention_layernorm.weight"@);
    let kq = layer_key(i, ".self_attn.q_proj.weight"@);
    let kk = layer_key(i, ".self_attn.k_proj.weight"@);
    let kv = layer_key(i, ".self_attn.v_proj.weight"@);
    let ko = layer_key(i, ".self_attn.o_proj.weight"@);
    let m1 = m.remove(kin);
    if !m1.contains_key(kpost) {
        Out::Fail("post_attention_layernorm weight missing"@)
    } else if !m1.remove(kpost).contains_key(kq) {
        Out::Fail("q_proj weight missing"@)
    } else if !m1.remove(kpost).remove(kq).contains_key(kk) {
        Out::Fail("k_proj weight missing"@)
    } else if !m1.remove(kpost).remove(kq).remove(kk).contains_key(kv) {
        Out::Fail("v_proj weight missing"@)
    } else if !m1.remove(kpost).remove(kq).remove(kk).remove(kv).contains_key(ko) {
        Out::Fail("o_proj weight missing"@)
    } else if transpose_error(es, m[kq]) is Some {
        Out::Fail(transpose_error(es, m[kq])->0)
    } else if transpose_error(es, m[kk]) is Some {
        Out::Fail(transpose_error(es, m[kk])->0)
    } else if transpose_error(es, m[kv]) is Some {
        Out::Fail(transpose_error(es, m[kv])->0)
    } else if transpose_error(es, m[ko]) is Some {
        Out::Fail(transpose_error(es, m[ko])->0)
    } else {
        let hidden = es[m[kq] as int].shape@[1] as nat;
        let head_dim = hidden / (NUM_HEADS as nat);
        if head_dim == 0 {
            Out::Abort(divide_by_zero_message())
        } else {
            let kv_heads = es[m[kk] as int].shape@[0] as nat / head_dim;
            let rest = m1.remove(kpost).remove(kq).remove(kk).remove(kv).remove(ko);
            match plan_feed_forward(es, rest, i, hidden) {
                Out::Done(ff, left) => Out::Done(
                    LayerV {
                        input_norm: kin,
                        post_norm: kpost,
                        q_proj: kq,
                        k_proj: kk,
                        v_proj: kv,
                        o_proj: ko,
                        hidden_size: hidden,
                        num_heads: NUM_HEADS as nat,
                        head_dim,
                        num_kv_heads: kv_heads,
                        feed_forward: ff,
                    },
                    left,
                ),
                Out::Fail(e) => Out::Fail(e),
                Out::Abort(e) => Out::Abort(e),
            }
        }
    }
}

/// What an outcome leaves of the weights is a part of `m` with fewer
/// entries.
pub open spec fn shrinks<T>(o: Out<T>, m: Map<Seq<char>, usize>, strict: bool) -> bool {
    match o {
        Out::Done(_, left) => left.dom().finite() && left.dom().subset_of(m.dom()) && (forall|k: Seq<char>| #[trigger] left.contains_key(k) ==> left[k] == m[k]) && (if strict {
            left.dom().len() < m.dom().len()
        } else {
            left.dom().len() <= m.dom().len()
        }),
        _ => true,
    }
}

pub proof fn lemma_remove_shrinks(m: Map<Seq<char>, usize>, k: Seq<char>)
    requires
        m.dom().finite(),
    ensures
        m.remove(k).dom().finite(),
        m.remove(k).dom().len() <= m.dom().len(),
        m.contains_key(k) ==> m.remove(k).dom().len() < m.dom().len(),
{
}

pub proof fn lemma_experts_shrink(es: Seq<WeightInfo>, m: Map<Seq<char>, usize>, i: nat, j: nat)
    requires
        m.dom().finite(),
    ensures
        shrinks(plan_experts(es, m, i, j), m, false),
    decreases m.dom().len(),
{
    let k1 = expert_key(i, j, "w1"@);
    let k2 = expert_key(i, j, "w2"@);
    let k3 = expert_key(i, j, "w3"@);
    if m.contains_key(k1) && m.remove(k1).contains_key(k2) && m.remove(k1).remove(k2).contains_key(k3) {
        let rest = m.remove(k1).remove(k2).remove(k3);
        lemma_remove_shrinks(m, k1);
        lemma_remove_shrinks(m.remove(k1), k2);
        lemma_remove_shrinks(m.remove(k1).remove(k2), k3);
        lemma_experts_shrink(es, rest, i, j + 1);
    }
}

pub proof fn lemma_feed_forward_shrinks(es: Seq<WeightInfo>, m: Map<Seq<char>, usize>, i: nat, hidden: nat)
    requires
        m.dom().finite(),
    ensures
        shrinks(plan_feed_forward(es, m, i, hidden), m, false),
{
    let kg = layer_key(i, ".block_sparse_moe.gate.weight"@);
    let kgp = layer_key(i, ".mlp.gate_proj.weight"@);
    let kdp = layer_key(i, ".mlp.down_proj.weight"@);
    lemma_remove_shrinks(m, kg);
    lemma_experts_shrink(es, m.remove(kg), i, 0);
    lemma_remove_shrinks(m, kgp);
    lemma_remove_shrinks(m.remove(kgp), kdp);
    lemma_remove_shrinks(m.remove(kgp).remove(kdp), layer_key(i, ".mlp.up_proj.weight"@));
}

pub proof fn lemma_layer_shrinks(es: Seq<WeightInfo>, m: Map<Seq<char>, usize>, i: nat)
    requires
        m.dom().finite(),
        m.contains_key(layer_key(i, ".input_layernorm.weight"@)),
    ensures
        shrinks(plan_layer(es, m, i), m, true),
{
    let kin = layer_key(i, ".input_layernorm.weight"@);
    let kpost = layer_key(i, ".post_attention_layernorm.weight"@);
    let kq = layer_key(i, ".self_attn.q_proj.weight"@);
    let kk = layer_key(i, ".self_attn.k_proj.weight"@);
    let kv = layer_key(i, ".self_attn.v_proj.weight"@);
    let ko = layer_key(i, ".self_attn.o_proj.weight"@);
    let m1 = m.remove(kin);
    lemma_remove_shrinks(m, kin);
    lemma_remove_shrinks(m1, kpost);
    lemma_remove_shrinks(m1.remove(kpost), kq);
    lemma_remove_shrinks(m1.remove(kpost).remove(kq), kk);
    lemma_remove_shrinks(m1.remove(kpost).remove(kq).remove(kk), kv);
    lemma_remove_shrinks(m1.remove(kpost).remove(kq).remove(kk).remove(kv), ko);
    lemma_feed_forward_shrinks(
        es,
        m1.remove(kpost).remove(kq).remove(kk).remove(kv).remove(ko),
        i,
        es[m[kq] as int].shape@[1] as nat,
    );
}

/// The layers from layer `i` on: layers are taken while layer `i`'s input
/// norm weight exists.
pub open spec fn plan_layers(es: Seq<WeightInfo>, m: Map<Seq<char>, usize>, i: nat) -> Out<Seq<LayerV>>
    decreases m.dom().len(),
    when m.dom().finite()
{
    if !m.contains_key(layer_key(i, ".input_layernorm.weight"@)) {
        Out::Done(Seq::empty(), m)
    } else {
        match plan_layer(es, m, i) {
            Out::Done(layer, left) => {
                proof {
                    lemma_layer_shrinks(es, m, i);
                }
                match plan_layers(es, left, i + 1) {
                    Out::Done(more, rest) => Out::Done(seq![layer] + more, rest),
                    Out::Fail(e) => Out::Fail(e),
                    Out::Abort(e) => Out::Abort(e),
                }
            },
            Out::Fail(e) => Out::Fail(e),
            Out::Abort(e) => Out::Abort(e),
        }
    }
}


/// The whole model: the token embeddings (`model.embed_tokens.weight`,
/// else `embed_tokens.weight`), the layers, the final norm
/// (`model.norm.weight`, else `norm.weight`) and the output head
/// (`lm_head.weight`, which must be transposable).
pub open spec fn plan_model(es: Seq<WeightInfo>, m: Map<Seq<char>, usize>) -> Out<ModelV> {
    let e1 = "model.embed_tokens.weight"@;
    let e2 = "embed_tokens.weight"@;
    let n1 = "model.norm.weight"@;
    let n2 = "norm.weight"@;
    let lm = "lm_head.weight"@;
    if !m.contains_key(e1) && !m.contains_key(e2) {
        Out::Fail("model.embed_tokens.weight tensor not found"@)
    } else {
        let embed = if m.contains_key(e1) {
            e1
        } else {
            e2
        };
        match plan_layers(es, m.remove(embed), 0) {
            Out::Done(layers, left) => if !left.contains_key(n1) && !left.contains_key(n2) {
                Out::Fail("model.norm.weight tensor not found"@)
            } else {
                let norm = if left.contains_key(n1) {
                    n1
                } else {
                    n2
                };
                let rest = left.remove(norm);
                if !rest.contains_key(lm) {
                    Out::Fail("lm_head.weight tensor not found"@)
                } else if transpose_error(es, rest[lm]) is Some {
                    Out::Fail(transpose_error(es, rest[lm])->0)
                } else {
                    Out::Done(ModelV { embed, layers, norm, lm_head: lm }, rest.remove(lm))
                }
            },
            Out::Fail(e) => Out::Fail(e),
            Out::Abort(e) => Out::Abort(e),
        }
    }
}

/// Whether a failure is the one an outcome names.
pub open spec fn failure_is<T>(f: PlanFailure, o: Out<T>) -> bool {
    match o {
        Out::Done(_, _) => false,
        Out::Fail(e) => f matches PlanFailure::Error(x) && x@ == e,
        Out::Abort(e) => f matches PlanFailure::Abort(x) && x@ == e,
    }
}

proof fn lemma_weight_index(es: Seq<WeightInfo>)
    ensures
        index_ok(es, weight_index(es)),
    decreases es.len(),
{
    if es.len() > 0 {
        lemma_weight_index(es.drop_last());
    }
}

fn key_for_layer(i: usize, suffix: &str) -> (k: String)
    ensures
        k@ == layer_key(i as nat, suffix@),
{
    let mut k = "model.layers.".to_owned();
    let digits = decimal_string(i as u64);
    k.append(digits.as_str());
    k.append(suffix);
    k
}

fn key_for_expert(i: usize, j: usize, w: &str) -> (k: String)
    ensures
        k@ == expert_key(i as nat, j as nat, w@),
{
    let mut suffix = ".block_sparse_moe.experts.".to_owned();
    let digits = decimal_string(j as u64);
    suffix.append(digits.as_str());
    suffix.append(".");
    suffix.append(w);
    suffix.append(".weight");
    key_for_layer(i, suffix.as_str())
}

/// Removes `k` from the index, giving its position if it was there.
fn take(m: &mut StringHashMap<usize>, k: &str) -> (r: Option<usize>)
    ensures
        match r {
            Some(idx) => old(m)@.contains_key(k@) && idx == old(m)@[k@] && final(m)@ == old(
                m,
            )@.remove(k@),
            None => !old(m)@.contains_key(k@) && final(m)@ == old(m)@,
        },
{
    match m.get(k) {
        Some(idx) => {
            let idx = *idx;
            m.remove(k);
            Some(idx)
        },
        None => None,
    }
}

fn check_transpose(es: &Vec<WeightInfo>, idx: usize) -> (r: Option<String>)
    requires
        idx < es.len(),
    ensures
        match r {
            Some(e) => transpose_error(es@, idx) == Some(e@),
            None => transpose_error(es@, idx) is None,
        },
{
    if es[idx].shape.len() != 2 {
        return Some("Only 2D tensors can be transposed".to_owned());
    }
    match es[idx].dtype {
        DataType::Float32 => None,
        _ => Some("currently only Float32 is supported".to_owned()),
    }
}


/// Prepends `acc` to the items an outcome found.
pub open spec fn prepend<T>(acc: Seq<T>, o: Out<Seq<T>>) -> Out<Seq<T>> {
    match o {
        Out::Done(more, left) => Out::Done(acc + more, left),
        Out::Fail(e) => Out::Fail(e),
        Out::Abort(e) => Out::Abort(e),
    }
}

fn experts_exec(es: &Vec<WeightInfo>, m: &mut StringHashMap<usize>, i: usize) -> (r: Result<
    Vec<ExpertKeys>,
    PlanFailure,
>)
    requires
        index_ok(es@, old(m)@),
    ensures
        match r {
            Ok(x) => plan_experts(es@, old(m)@, i as nat, 0) == Out::Done(
                experts_view(x@),
                final(m)@,
            ),
            Err(f) => failure_is(f, plan_experts(es@, old(m)@, i as nat, 0)),
        },
        r is Ok ==> index_ok(es@, final(m)@),
{
    let ghost start = m@;
    let mut experts: Vec<ExpertKeys> = Vec::new();
    let mut j: usize = 0;
    let n = es.len();
    loop
        invariant
            start == old(m)@,
            n == es@.len(),
            index_ok(es@, m@),
            j + m@.dom().len() <= es@.len(),
            plan_experts(es@, start, i as nat, 0) == prepend(
                experts_view(experts@),
                plan_experts(es@, m@, i as nat, j as nat),
            ),
        decreases m@.dom().len(),
    {
        let ghost cur = m@;
        let k1 = key_for_expert(i, j, "w1");
        let k2 = key_for_expert(i, j, "w2");
        let k3 = key_for_expert(i, j, "w3");
        proof {
            reveal_strlit("w1");
            reveal_strlit("w2");
            reveal_strlit("w3");
        }
        let i1 = match take(m, k1.as_str()) {
            Some(x) => x,
            None => {
                assert(!cur.contains_key(expert_key(i as nat, j as nat, "w1"@)));
                assert(plan_experts(es@, cur, i as nat, j as nat) == Out::<Seq<ExpertKeysV>>::Done(
                    Seq::empty(),
                    cur,
                ));
                assert(experts_view(experts@) + Seq::<ExpertKeysV>::empty() =~= experts_view(experts@));
                return Ok(experts);
            },
        };
        if let Some(e) = check_transpose(es, i1) {
            return Err(PlanFailure::Error(e));
        }
        let i2 = match take(m, k2.as_str()) {
            Some(x) => x,
            None => {
                return Err(PlanFailure::Abort("called `Option::unwrap()` on a `None` value".to_owned()));
            },
        };
        assert(cur[k2@] == i2);
        if let Some(e) = check_transpose(es, i2) {
            return Err(PlanFailure::Error(e));
        }
        let i3 = match take(m, k3.as_str()) {
            Some(x) => x,
            None => {
                return Err(PlanFailure::Abort("called `Option::unwrap()` on a `None` value".to_owned()));
            },
        };
        assert(cur[k3@] == i3);
        if let Some(e) = check_transpose(es, i3) {
            return Err(PlanFailure::Error(e));
        }
        let ghost before = experts_view(experts@);
        experts.push(ExpertKeys { w1: k1, w2: k2, w3: k3 });
        proof {
            lemma_remove_shrinks(cur, k1@);
            lemma_remove_shrinks(cur.remove(k1@), k2@);
            lemma_remove_shrinks(cur.remove(k1@).remove(k2@), k3@);
            assert(m@ == cur.remove(k1@).remove(k2@).remove(k3@));
            assert(m@.dom().len() + 3 <= cur.dom().len());
            let item = ExpertKeysV { w1: expert_key(i as nat, j as nat, "w1"@), w2: expert_key(i as nat, j as nat, "w2"@), w3: expert_key(i as nat, j as nat, "w3"@) };
            assert(experts_view(experts@) =~= before.push(item));
            let nxt = plan_experts(es@, m@, i as nat, (j + 1) as nat);
            match nxt {
                Out::Done(more, left) => {
                    assert(before + (seq![item] + more) =~= before.push(item) + more);
                },
                _ => {},
            }
        }
        j = j + 1;
    }
}


proof fn lemma_index_ok_remove(es: Seq<WeightInfo>, m: Map<Seq<char>, usize>, k: Seq<char>)
    requires
        index_ok(es, m),
    ensures
        index_ok(es, m.remove(k)),
{
    lemma_remove_shrinks(m, k);
}

/// Removes `k` from the index, or fails with `missing` when it is absent.
fn take_or(m: &mut StringHashMap<usize>, k: &str, missing: &str) -> (r: Result<usize, PlanFailure>)
    ensures
        match r {
            Ok(idx) => old(m)@.contains_key(k@) && idx == old(m)@[k@] && final(m)@ == old(
                m,
            )@.remove(k@),
            Err(f) => {
                &&& !old(m)@.contains_key(k@)
                &&& final(m)@ == old(m)@
                &&& f matches PlanFailure::Error(x) && x@ == missing@
            },
        },
{
    match take(m, k) {
        Some(idx) => Ok(idx),
        None => Err(PlanFailure::Error(missing.to_owned())),
    }
}

fn transposable(es: &Vec<WeightInfo>, idx: usize) -> (r: Result<(), PlanFailure>)
    requires
        idx < es.len(),
    ensures
        match r {
            Ok(_) => transpose_error(es@, idx) is None,
            Err(f) => {
                &&& transpose_error(es@, idx) is Some
                &&& f matches PlanFailure::Error(x) && x@ == transpose_error(es@, idx)->0
            },
        },
{
    match check_transpose(es, idx) {
        Some(e) => Err(PlanFailure::Error(e)),
        None => Ok(()),
    }
}

fn feed_forward_exec(es: &Vec<WeightInfo>, m: &mut StringHashMap<usize>, i: usize, hidden: usize) -> (r: Result<
    FeedForwardPlan,
    PlanFailure,
>)
    requires
        index_ok(es@, old(m)@),
    ensures
        match r {
            Ok(x) => plan_feed_forward(es@, old(m)@, i as nat, hidden as nat) == Out::Done(x@, final(m)@),
            Err(f) => failure_is(f, plan_feed_forward(es@, old(m)@, i as nat, hidden as nat)),
        },
        r is Ok ==> index_ok(es@, final(m)@),
{
    let ghost m0 = m@;
    let kg = key_for_layer(i, ".block_sparse_moe.gate.weight");
    let kgp = key_for_layer(i, ".mlp.gate_proj.weight");
    let kdp = key_for_layer(i, ".mlp.down_proj.weight");
    let kup = key_for_layer(i, ".mlp.up_proj.weight");
    proof {
        reveal_strlit(".block_sparse_moe.gate.weight");
        reveal_strlit(".mlp.gate_proj.weight");
        reveal_strlit(".mlp.down_proj.weight");
        reveal_strlit(".mlp.up_proj.weight");
    }
    match take(m, kg.as_str()) {
        Some(ig) => {
            transposable(es, ig)?;
            proof {
                lemma_index_ok_remove(es@, m0, kg@);
            }
            let experts = experts_exec(es, m, i)?;
            Ok(FeedForwardPlan::Experts { gate: kg, experts, top_k: 2 })
        },
        None => {
            let igp = take_or(m, kgp.as_str(), "mlp.gate_proj weight missing")?;
            let idp = take_or(m, kdp.as_str(), "mlp.down_proj weight missing")?;
            let iup = take_or(m, kup.as_str(), "mlp.up_proj weight missing")?;
            assert(m0[kdp@] == idp);
            assert(m0[kup@] == iup);
            transposable(es, igp)?;
            transposable(es, idp)?;
            transposable(es, iup)?;
            proof {
                lemma_index_ok_remove(es@, m0, kgp@);
                lemma_index_ok_remove(es@, m0.remove(kgp@), kdp@);
                lemma_index_ok_remove(es@, m0.remove(kgp@).remove(kdp@), kup@);
            }
            let zero_gate_shape = vec![hidden, 1];
            Ok(
                FeedForwardPlan::Dense {
                    gate_proj: kgp,
                    down_proj: kdp,
                    up_proj: kup,
                    zero_gate_shape,
                    top_k: 1,
                },
            )
        },
    }
}

fn layer_exec(es: &Vec<WeightInfo>, m: &mut StringHashMap<usize>, i: usize) -> (r: Result<
    LayerPlan,
    PlanFailure,
>)
    requires
        index_ok(es@, old(m)@),
        old(m)@.contains_key(layer_key(i as nat, ".input_layernorm.weight"@)),
    ensures
        match r {
            Ok(x) => plan_layer(es@, old(m)@, i as nat) == Out::Done(x@, final(m)@),
            Err(f) => failure_is(f, plan_layer(es@, old(m)@, i as nat)),
        },
        r is Ok ==> index_ok(es@, final(m)@),
{
    let ghost m0 = m@;
    let kin = key_for_layer(i, ".input_layernorm.weight");
    let kpost = key_for_layer(i, ".post_attention_layernorm.weight");
    let kq = key_for_layer(i, ".self_attn.q_proj.weight");
    let kk = key_for_layer(i, ".self_attn.k_proj.weight");
    let kv = key_for_layer(i, ".self_attn.v_proj.weight");
    let ko = key_for_layer(i, ".self_attn.o_proj.weight");
    proof {
        reveal_strlit(".input_layernorm.weight");
        reveal_strlit(".post_attention_layernorm.weight");
        reveal_strlit(".self_attn.q_proj.weight");
        reveal_strlit(".self_attn.k_proj.weight");
        reveal_strlit(".self_attn.v_proj.weight");
        reveal_strlit(".self_attn.o_proj.weight");
    }
    let _ = take_or(m, kin.as_str(), "input_layernorm weight missing")?;
    let ghost m1 = m@;
    let _ = take_or(m, kpost.as_str(), "post_attention_layernorm weight missing")?;
    let iq = take_or(m, kq.as_str(), "q_proj weight missing")?;
    let ik = take_or(m, kk.as_str(), "k_proj weight missing")?;
    let iv = take_or(m, kv.as_str(), "v_proj weight missing")?;
    let io = take_or(m, ko.as_str(), "o_proj weight missing")?;
    assert(m0[kq@] == iq);
    assert(m0[kk@] == ik);
    assert(m0[kv@] == iv);
    assert(m0[ko@] == io);
    transposable(es, iq)?;
    transposable(es, ik)?;
    transposable(es, iv)?;
    transposable(es, io)?;
    let hidden_size = es[iq].shape[1];
    let head_dim = hidden_size / NUM_HEADS;
    if head_dim == 0 {
        return Err(PlanFailure::Abort("attempt to divide by zero".to_owned()));
    }
    let num_kv_heads = es[ik].shape[0] / head_dim;
    proof {
        lemma_index_ok_remove(es@, m0, kin@);
        lemma_index_ok_remove(es@, m1, kpost@);
        lemma_index_ok_remove(es@, m1.remove(kpost@), kq@);
        lemma_index_ok_remove(es@, m1.remove(kpost@).remove(kq@), kk@);
        lemma_index_ok_remove(es@, m1.remove(kpost@).remove(kq@).remove(kk@), kv@);
        lemma_index_ok_remove(es@, m1.remove(kpost@).remove(kq@).remove(kk@).remove(kv@), ko@);
    }
    let feed_forward = feed_forward_exec(es, m, i, hidden_size)?;
    Ok(
        LayerPlan {
            input_norm: kin,
            post_norm: kpost,
            q_proj: kq,
            k_proj: kk,
            v_proj: kv,
            o_proj: ko,
            hidden_size,
            num_heads: NUM_HEADS,
            head_dim,
            num_kv_heads,
            feed_forward,
        },
    )
}

/// The index of `es` by name, as a hash map.
fn index_weights(es: &Vec<WeightInfo>) -> (m: StringHashMap<usize>)
    ensures
        m@ == weight_index(es@),
{
    let mut m: StringHashMap<usize> = StringHashMap::new();
    let n = es.len();
    for idx in 0..n
        invariant
            n == es@.len(),
            m@ == weight_index(es@.take(idx as int)),
    {
        m.insert(es[idx].name.clone(), idx);
        assert(es@.take(idx + 1).drop_last() =~= es@.take(idx as int));
    }
    assert(es@.take(n as int) =~= es@);
    m
}

/// Plans how a transformer is assembled from the weights `weights`: the
/// embeddings, each layer `0, 1, ...` for as long as its input norm
/// weight exists, the final norm and the output head, with the checks and
/// the failures of `plan_model`.
pub fn plan_transformer(weights: &Vec<WeightInfo>) -> (r: Result<ModelPlan, PlanFailure>)
    ensures
        match r {
            Ok(p) => plan_model(weights@, weight_index(weights@)) matches Out::Done(v, _) && v
                == p@,
            Err(f) => failure_is(f, plan_model(weights@, weight_index(weights@))),
        },
{
    let es = weights;
    let mut m = index_weights(es);
    let ghost m0 = m@;
    proof {
        lemma_weight_index(es@);
        reveal_strlit("model.embed_tokens.weight");
        reveal_strlit("embed_tokens.weight");
        reveal_strlit("model.norm.weight");
        reveal_strlit("norm.weight");
        reveal_strlit("lm_head.weight");
        reveal_strlit(".input_layernorm.weight");
    }
    let embed = match take(&mut m, "model.embed_tokens.weight") {
        Some(_) => "model.embed_tokens.weight".to_owned(),
        None => match take(&mut m, "embed_tokens.weight") {
            Some(_) => "embed_tokens.weight".to_owned(),
            None => {
                return Err(PlanFailure::Error("model.embed_tokens.weight tensor not found".to_owned()));
            },
        },
    };
    proof {
        lemma_index_ok_remove(es@, m0, embed@);
        assert(m@ =~= m0.remove(embed@));
    }
    let ghost start = m@;
    let mut layers: Vec<LayerPlan> = Vec::new();
    let mut i: usize = 0;
    let n = es.len();
    loop
        invariant
            es@ == weights@,
            n == es@.len(),
            m0 == weight_index(es@),
            start == m0.remove(embed@),
            embed@ == (if m0.contains_key("model.embed_tokens.weight"@) {
                "model.embed_tokens.weight"@
            } else {
                "embed_tokens.weight"@
            }),
            m0.contains_key("model.embed_tokens.weight"@) || m0.contains_key("embed_tokens.weight"@),
            start.dom().finite(),
            index_ok(es@, m@),
            i + m@.dom().len() <= n,
            plan_layers(es@, start, 0) == prepend(layers_view(layers@), plan_layers(es@, m@, i as nat)),
        ensures
            plan_layers(es@, start, 0) == prepend(layers_view(layers@), plan_layers(es@, m@, i as nat)),
            !m@.contains_key(layer_key(i as nat, ".input_layernorm.weight"@)),
            index_ok(es@, m@),
        decreases m@.dom().len(),
    {
        let kin = key_for_layer(i, ".input_layernorm.weight");
        if !m.contains_key(kin.as_str()) {
            break;
        }
        let ghost cur = m@;
        let layer = match layer_exec(es, &mut m, i) {
            Ok(layer) => layer,
            Err(f) => {
                assert(failure_is(f, plan_layers(es@, cur, i as nat)));
                return Err(f);
            },
        };
        let ghost before = layers_view(layers@);
        layers.push(layer);
        proof {
            lemma_layer_shrinks(es@, cur, i as nat);
            assert(layers_view(layers@) =~= before.push(layer@));
            match plan_layers(es@, m@, (i + 1) as nat) {
                Out::Done(more, left) => {
                    assert(before + (seq![layer@] + more) =~= before.push(layer@) + more);
                },
                _ => {},
            }
        }
        i = i + 1;
    }
    assert(layers_view(layers@) + Seq::<LayerV>::empty() =~= layers_view(layers@));
    let norm = match take(&mut m, "model.norm.weight") {
        Some(_) => "model.norm.weight".to_owned(),
        None => match take(&mut m, "norm.weight") {
            Some(_) => "norm.weight".to_owned(),
            None => {
                return Err(PlanFailure::Error("model.norm.weight tensor not found".to_owned()));
            },
        },
    };
    let ilm = take_or(&mut m, "lm_head.weight", "lm_head.weight tensor not found")?;
    transposable(es, ilm)?;
    Ok(ModelPlan { embed, layers, norm, lm_head: "lm_head.weight".to_owned() })
}

/// Whether weight name `w` is one of an expert's three, `w1`, `w2` or
/// `w3`.
pub open spec fn expert_weight(w: Seq<char>) -> bool {
    w == seq!['w', '1'] || w == seq!['w', '2'] || w == seq!['w', '3']
}

/// The names of different weights of a layer's experts are different.
proof fn lemma_expert_keys_distinct(i: nat, j1: nat, w1: Seq<char>, j2: nat, w2: Seq<char>)
    requires
        expert_weight(w1),
        expert_weight(w2),
        j1 != j2 || w1 != w2,
    ensures
        expert_key(i, j1, w1) != expert_key(i, j2, w2),
{
    reveal_strlit(".block_sparse_moe.experts.");
    reveal_strlit(".");
    reveal_strlit(".weight");
    reveal_strlit("model.layers.");
    let p = "model.layers."@ + decimal(i) + ".block_sparse_moe.experts."@;
    let d1 = decimal(j1);
    let d2 = decimal(j2);
    let r1 = d1 + "."@ + w1 + ".weight"@;
    let r2 = d2 + "."@ + w2 + ".weight"@;
    assert(expert_key(i, j1, w1) =~= p + r1);
    assert(expert_key(i, j2, w2) =~= p + r2);
    if expert_key(i, j1, w1) == expert_key(i, j2, w2) {
        assert((p + r1).skip(p.len() as int) =~= r1);
        assert((p + r2).skip(p.len() as int) =~= r2);
        assert(r1 == r2);
        lemma_decimal_digits(j1);
        lemma_decimal_digits(j2);
        if d1.len() < d2.len() {
            assert(r1[d1.len() as int] == '.');
            assert(r2[d1.len() as int] == d2[d1.len() as int]);
        } else if d2.len() < d1.len() {
            assert(r2[d2.len() as int] == '.');
            assert(r1[d2.len() as int] == d1[d2.len() as int]);
        } else {
            assert(d1 =~= r1.take(d1.len() as int));
            assert(d2 =~= r2.take(d2.len() as int));
            lemma_decimal_injective(j1, j2);
            assert(r1[d1.len() + 2int] == w1[1]);
            assert(r2[d2.len() + 2int] == w2[1]);
            assert(w1 =~= seq!['w', w1[1]]);
            assert(w2 =~= seq!['w', w2[1]]);
        }
    }
}

/// Whether weight `k` exists and can be transposed: two-dimensional and
/// `Float32`.
pub open spec fn present_matrix(es: Seq<WeightInfo>, m: Map<Seq<char>, usize>, k: Seq<char>) -> bool {
    &&& m.contains_key(k)
    &&& m[k] < es.len()
    &&& es[m[k] as int].shape@.len() == 2
    &&& es[m[k] as int].dtype == DataType::Float32
}

/// Whether the three weights of expert `j` of layer `i` exist and can be
/// transposed.
pub open spec fn expert_present(es: Seq<WeightInfo>, m: Map<Seq<char>, usize>, i: nat, j: nat) -> bool {
    &&& present_matrix(es, m, expert_key(i, j, seq!['w', '1']))
    &&& present_matrix(es, m, expert_key(i, j, seq!['w', '2']))
    &&& present_matrix(es, m, expert_key(i, j, seq!['w', '3']))
}

proof fn lemma_experts_from(es: Seq<WeightInfo>, m: Map<Seq<char>, usize>, i: nat, j0: nat, n: nat)
    requires
        j0 <= n,
        m.dom().finite(),
        forall|j: nat| j0 <= j < n ==> #[trigger] expert_present(es, m, i, j),
        !m.contains_key(expert_key(i, n, seq!['w', '1'])),
    ensures
        plan_experts(es, m, i, j0) matches Out::Done(ex, _) && ex.len() == n - j0 && forall|t: int|
            0 <= t < n - j0 ==> #[trigger] ex[t] == (ExpertKeysV {
                w1: expert_key(i, (j0 + t) as nat, seq!['w', '1']),
                w2: expert_key(i, (j0 + t) as nat, seq!['w', '2']),
                w3: expert_key(i, (j0 + t) as nat, seq!['w', '3']),
            }),
    decreases n - j0,
{
    reveal_strlit("w1");
    reveal_strlit("w2");
    reveal_strlit("w3");
    assert("w1"@ =~= seq!['w', '1']);
    assert("w2"@ =~= seq!['w', '2']);
    assert("w3"@ =~= seq!['w', '3']);
    let k1 = expert_key(i, j0, seq!['w', '1']);
    let k2 = expert_key(i, j0, seq!['w', '2']);
    let k3 = expert_key(i, j0, seq!['w', '3']);
    if j0 < n {
        assert(expert_present(es, m, i, j0));
        lemma_expert_keys_distinct(i, j0, seq!['w', '1'], j0, seq!['w', '2']);
        lemma_expert_keys_distinct(i, j0, seq!['w', '1'], j0, seq!['w', '3']);
        lemma_expert_keys_distinct(i, j0, seq!['w', '2'], j0, seq!['w', '3']);
        let rest = m.remove(k1).remove(k2).remove(k3);
        assert forall|j: nat| j0 + 1 <= j < n implies #[trigger] expert_present(es, rest, i, j) by {
            assert(expert_present(es, m, i, j));
            let ws = seq![seq!['w', '1'], seq!['w', '2'], seq!['w', '3']];
            assert forall|a: int, b: int| 0 <= a < 3 && 0 <= b < 3 implies expert_key(i, j, #[trigger] ws[a])
                != expert_key(i, j0, #[trigger] ws[b]) by {
                lemma_expert_keys_distinct(i, j, ws[a], j0, ws[b]);
            }
            assert(ws[0] == seq!['w', '1'] && ws[1] == seq!['w', '2'] && ws[2] == seq!['w', '3']);
        }
        assert(!rest.contains_key(expert_key(i, n, seq!['w', '1'])));
        lemma_remove_shrinks(m, k1);
        lemma_remove_shrinks(m.remove(k1), k2);
        lemma_remove_shrinks(m.remove(k1).remove(k2), k3);
        lemma_experts_from(es, rest, i, j0 + 1, n);
        match plan_experts(es, rest, i, j0 + 1) {
            Out::Done(more, left) => {
                let ex = seq![ExpertKeysV { w1: k1, w2: k2, w3: k3 }] + more;
                assert(plan_experts(es, m, i, j0) == Out::<Seq<ExpertKeysV>>::Done(ex, left));
                assert forall|t: int| 0 <= t < n - j0 implies #[trigger] ex[t] == (ExpertKeysV {
                    w1: expert_key(i, (j0 + t) as nat, seq!['w', '1']),
                    w2: expert_key(i, (j0 + t) as nat, seq!['w', '2']),
                    w3: expert_key(i, (j0 + t) as nat, seq!['w', '3']),
                }) by {
                    if t > 0 {
                        assert(ex[t] == more[t - 1]);
                        assert((j0 + 1 + (t - 1)) as nat == (j0 + t) as nat);
                    }
                }
            },
            _ => {},
        }
    } else {
        assert(j0 == n);
    }
}

/// The plan takes every expert present: if the `w1`, `w2` and `w3`
/// weights of experts `0..n` of layer `i` exist and are two-dimensional
/// `Float32` matrices, and `w1` of expert `n` does not exist, the layer's
/// experts are exactly those `n`, in order, expert `j` named
/// `model.layers.<i>.block_sparse_moe.experts.<j>.<w>.weight`.
pub proof fn law_plan_takes_every_expert(es: Seq<WeightInfo>, m: Map<Seq<char>, usize>, i: nat, n: nat)
    requires
        m.dom().finite(),
        forall|j: nat| j < n ==> #[trigger] expert_present(es, m, i, j),
        !m.contains_key(expert_key(i, n, seq!['w', '1'])),
    ensures
        plan_experts(es, m, i, 0) matches Out::Done(ex, _) && ex.len() == n && forall|j: int|
            0 <= j < n ==> #[trigger] ex[j] == (ExpertKeysV {
                w1: expert_key(i, j as nat, seq!['w', '1']),
                w2: expert_key(i, j as nat, seq!['w', '2']),
                w3: expert_key(i, j as nat, seq!['w', '3']),
            }),
        forall|j: nat, w: Seq<char>|
            #[trigger] expert_key(i, j, w) == "model.layers."@ + decimal(i)
                + ".block_sparse_moe.experts."@ + decimal(j) + "."@ + w + ".weight"@,
{
    lemma_experts_from(es, m, i, 0, n);
    assert forall|j: nat, w: Seq<char>|
        #[trigger] expert_key(i, j, w) == "model.layers."@ + decimal(i)
            + ".block_sparse_moe.experts."@ + decimal(j) + "."@ + w + ".weight"@ by {
        assert(expert_key(i, j, w) =~= "model.layers."@ + decimal(i)
            + ".block_sparse_moe.experts."@ + decimal(j) + "."@ + w + ".weight"@);
    }
}

/// The plan stops taking layers only where a layer is missing: whenever
/// layers are planned from layer `i` on, layer `t` of the result is
/// layer `i + t` of the model (its weights are named
/// `model.layers.<i + t>. ...`), and the input norm of the layer after the
/// last one taken is not among the weights left.
pub proof fn law_layers_until_missing_norm(es: Seq<WeightInfo>, m: Map<Seq<char>, usize>, i: nat)
    requires
        m.dom().finite(),
    ensures
        plan_layers(es, m, i) matches Out::Done(ls, left) ==> {
            &&& !left.contains_key(layer_key(i + ls.len(), ".input_layernorm.weight"@))
            &&& forall|t: int| 0 <= t < ls.len() ==> #[trigger] ls[t].input_norm == layer_key(
                (i + t) as nat,
                ".input_layernorm.weight"@,
            )
        },
        forall|t: nat, suffix: Seq<char>|
            #[trigger] layer_key(t, suffix) == "model.layers."@ + decimal(t) + suffix,
    decreases m.dom().len(),
{
    if m.contains_key(layer_key(i, ".input_layernorm.weight"@)) {
        match plan_layer(es, m, i) {
            Out::Done(layer, left1) => {
                lemma_layer_shrinks(es, m, i);
                law_layers_until_missing_norm(es, left1, i + 1);
                match plan_layers(es, left1, i + 1) {
                    Out::Done(more, rest) => {
                        let ls = seq![layer] + more;
                        assert(plan_layers(es, m, i) == Out::<Seq<LayerV>>::Done(ls, rest));
                        assert((i + ls.len()) as nat == (i + 1 + more.len()) as nat);
                        assert forall|t: int| 0 <= t < ls.len() implies #[trigger] ls[t].input_norm
                            == layer_key((i + t) as nat, ".input_layernorm.weight"@) by {
                            if t > 0 {
                                assert(ls[t] == more[t - 1]);
                                assert((i + 1 + (t - 1)) as nat == (i + t) as nat);
                            }
                        }
                    },
                    _ => {},
                }
            },
            _ => {},
        }
    } else {
        assert(plan_layers(es, m, i) == Out::<Seq<LayerV>>::Done(Seq::empty(), m));
        assert((i + 0) as nat == i);
    }
}

/// The expert scan stops only where an expert is missing: the `w1` weight
/// of the expert after the last one taken is not among the weights left.
pub proof fn law_experts_until_missing(es: Seq<WeightInfo>, m: Map<Seq<char>, usize>, i: nat, j: nat)
    requires
        m.dom().finite(),
    ensures
        plan_experts(es, m, i, j) matches Out::Done(ex, left) ==> !left.contains_key(
            expert_key(i, j + ex.len(), "w1"@),
        ),
    decreases m.dom().len(),
{
    let k1 = expert_key(i, j, "w1"@);
    let k2 = expert_key(i, j, "w2"@);
    let k3 = expert_key(i, j, "w3"@);
    if m.contains_key(k1) && m.remove(k1).contains_key(k2) && m.remove(k1).remove(k2).contains_key(
        k3,
    ) {
        let rest = m.remove(k1).remove(k2).remove(k3);
        lemma_remove_shrinks(m, k1);
        lemma_remove_shrinks(m.remove(k1), k2);
        lemma_remove_shrinks(m.remove(k1).remove(k2), k3);
        law_experts_until_missing(es, rest, i, j + 1);
        match plan_experts(es, rest, i, j + 1) {
            Out::Done(more, left) => {
                assert((j + (1 + more.len())) as nat == (j + 1 + more.len()) as nat);
            },
            _ => {},
        }
    } else {
        assert((j + 0) as nat == j);
    }
}

/// The attention parameters of a planned layer come from its weights'
/// shapes (stored `[out, in]`): the hidden size is the input width of the
/// query projection, 32 heads share it evenly (`head_dim` is the hidden
/// size divided by 32, and is not 0), and the key/value heads are the
/// key projection's output width divided by `head_dim`.
pub proof fn law_layer_attention_shapes(es: Seq<WeightInfo>, m: Map<Seq<char>, usize>, i: nat)
    requires
        m.dom().finite(),
        m.contains_key(layer_key(i, ".input_layernorm.weight"@)),
    ensures
        plan_layer(es, m, i) matches Out::Done(l, _) ==> {
            let q = m[layer_key(i, ".self_attn.q_proj.weight"@)] as int;
            let k = m[layer_key(i, ".self_attn.k_proj.weight"@)] as int;
            &&& l.q_proj == layer_key(i, ".self_attn.q_proj.weight"@)
            &&& l.k_proj == layer_key(i, ".self_attn.k_proj.weight"@)
            &&& l.hidden_size == es[q].shape@[1]
            &&& l.num_heads == 32
            &&& l.head_dim > 0
            &&& l.head_dim * 32 <= l.hidden_size < (l.head_dim + 1) * 32
            &&& l.num_kv_heads * l.head_dim <= es[k].shape@[0] < (l.num_kv_heads + 1) * l.head_dim
        },
{
    match plan_layer(es, m, i) {
        Out::Done(l, _) => {
            let h = l.hidden_size;
            let d = l.head_dim;
            assert(d == h / 32);
            assert(d * 32 <= h < (d + 1) * 32);
            let k = m[layer_key(i, ".self_attn.k_proj.weight"@)] as int;
            let r = es[k].shape@[1 - 1] as nat;
            assert(l.num_kv_heads == r / d);
            assert(l.num_kv_heads * d <= r < (l.num_kv_heads + 1) * d) by (nonlinear_arith)
                requires
                    l.num_kv_heads == r / d,
                    d > 0,
            {}
        },
        _ => {},
    }
}

} // verus!
