use mentat::model::layout::{plan_transformer, FeedForwardPlan, PlanFailure, WeightInfo};
use mentat::tensor::DataType;

fn w(name: &str, shape: &[usize]) -> WeightInfo {
    WeightInfo { name: name.to_string(), shape: shape.to_vec(), dtype: DataType::Float32 }
}

fn attention(layer: usize, hidden: usize, kv_out: usize) -> Vec<WeightInfo> {
    let p = format!("model.layers.{}", layer);
    vec![
        w(&format!("{}.input_layernorm.weight", p), &[hidden]),
        w(&format!("{}.post_attention_layernorm.weight", p), &[hidden]),
        w(&format!("{}.self_attn.q_proj.weight", p), &[hidden, hidden]),
        w(&format!("{}.self_attn.k_proj.weight", p), &[kv_out, hidden]),
        w(&format!("{}.self_attn.v_proj.weight", p), &[kv_out, hidden]),
        w(&format!("{}.self_attn.o_proj.weight", p), &[hidden, hidden]),
    ]
}

fn dense(layer: usize, hidden: usize) -> Vec<WeightInfo> {
    let p = format!("model.layers.{}.mlp", layer);
    vec![
        w(&format!("{}.gate_proj.weight", p), &[8, hidden]),
        w(&format!("{}.down_proj.weight", p), &[hidden, 8]),
        w(&format!("{}.up_proj.weight", p), &[8, hidden]),
    ]
}

fn outer(hidden: usize) -> Vec<WeightInfo> {
    vec![
        w("model.embed_tokens.weight", &[10, hidden]),
        w("model.norm.weight", &[hidden]),
        w("lm_head.weight", &[10, hidden]),
    ]
}

#[test]
fn plan_dense_two_layer_model() {
    let mut ws = outer(64);
    ws.extend(attention(0, 64, 16));
    ws.extend(dense(0, 64));
    ws.extend(attention(1, 64, 16));
    ws.extend(dense(1, 64));
    let plan = plan_transformer(&ws).unwrap();
    assert_eq!(plan.embed, "model.embed_tokens.weight");
    assert_eq!(plan.norm, "model.norm.weight");
    assert_eq!(plan.lm_head, "lm_head.weight");
    assert_eq!(plan.layers.len(), 2);
    let l1 = &plan.layers[1];
    assert_eq!(l1.q_proj, "model.layers.1.self_attn.q_proj.weight");
    assert_eq!(l1.hidden_size, 64);
    assert_eq!(l1.num_heads, 32);
    assert_eq!(l1.head_dim, 2);
    assert_eq!(l1.num_kv_heads, 8);
    assert_eq!(
        l1.feed_forward,
        FeedForwardPlan::Dense {
            gate_proj: "model.layers.1.mlp.gate_proj.weight".to_string(),
            down_proj: "model.layers.1.mlp.down_proj.weight".to_string(),
            up_proj: "model.layers.1.mlp.up_proj.weight".to_string(),
            zero_gate_shape: vec![64, 1],
            top_k: 1,
        }
    );
}

#[test]
fn plan_mixture_of_experts_layer() {
    let mut ws = vec![
        w("embed_tokens.weight", &[10, 32]),
        w("norm.weight", &[32]),
        w("lm_head.weight", &[10, 32]),
    ];
    ws.extend(attention(0, 32, 32));
    ws.push(w("model.layers.0.block_sparse_moe.gate.weight", &[2, 32]));
    for e in 0..2 {
        for k in ["w1", "w2", "w3"] {
            ws.push(w(&format!("model.layers.0.block_sparse_moe.experts.{}.{}.weight", e, k), &[4, 4]));
        }
    }
    let plan = plan_transformer(&ws).unwrap();
    assert_eq!(plan.embed, "embed_tokens.weight");
    assert_eq!(plan.norm, "norm.weight");
    assert_eq!(plan.layers.len(), 1);
    assert_eq!(plan.layers[0].head_dim, 1);
    assert_eq!(plan.layers[0].num_kv_heads, 32);
    match &plan.layers[0].feed_forward {
        FeedForwardPlan::Experts { gate, experts, top_k } => {
            assert_eq!(gate, "model.layers.0.block_sparse_moe.gate.weight");
            assert_eq!(*top_k, 2);
            assert_eq!(experts.len(), 2);
            assert_eq!(experts[1].w3, "model.layers.0.block_sparse_moe.experts.1.w3.weight");
        }
        other => panic!("expected experts, got {:?}", other),
    }
}

#[test]
fn plan_without_layers() {
    let plan = plan_transformer(&outer(8)).unwrap();
    assert!(plan.layers.is_empty());
}

#[test]
fn plan_reports_missing_weights() {
    assert_eq!(
        plan_transformer(&vec![]),
        Err(PlanFailure::Error("model.embed_tokens.weight tensor not found".to_string()))
    );
    let no_norm = vec![w("model.embed_tokens.weight", &[10, 8]), w("lm_head.weight", &[10, 8])];
    assert_eq!(
        plan_transformer(&no_norm),
        Err(PlanFailure::Error("model.norm.weight tensor not found".to_string()))
    );
    let no_head = vec![w("model.embed_tokens.weight", &[10, 8]), w("model.norm.weight", &[8])];
    assert_eq!(
        plan_transformer(&no_head),
        Err(PlanFailure::Error("lm_head.weight tensor not found".to_string()))
    );
    let mut no_k = outer(64);
    no_k.extend(attention(0, 64, 16).into_iter().filter(|x| !x.name.contains("k_proj")));
    assert_eq!(plan_transformer(&no_k), Err(PlanFailure::Error("k_proj weight missing".to_string())));
    let mut no_up = outer(64);
    no_up.extend(attention(0, 64, 16));
    no_up.extend(dense(0, 64).into_iter().filter(|x| !x.name.contains("up_proj")));
    assert_eq!(
        plan_transformer(&no_up),
        Err(PlanFailure::Error("mlp.up_proj weight missing".to_string()))
    );
}

#[test]
fn plan_rejects_untransposable_weights() {
    let mut ws = outer(64);
    ws[2] = w("lm_head.weight", &[10, 64, 1]);
    assert_eq!(
        plan_transformer(&ws),
        Err(PlanFailure::Error("Only 2D tensors can be transposed".to_string()))
    );
    let mut ws = outer(64);
    ws[2].dtype = DataType::Float16;
    assert_eq!(
        plan_transformer(&ws),
        Err(PlanFailure::Error("currently only Float32 is supported".to_string()))
    );
}

#[test]
fn plan_aborts_where_loading_would_panic() {
    let mut small = outer(16);
    small.extend(attention(0, 16, 16));
    small.extend(dense(0, 16));
    assert_eq!(
        plan_transformer(&small),
        Err(PlanFailure::Abort("attempt to divide by zero".to_string()))
    );
    let mut ws = outer(32);
    ws.extend(attention(0, 32, 32));
    ws.push(w("model.layers.0.block_sparse_moe.gate.weight", &[2, 32]));
    ws.push(w("model.layers.0.block_sparse_moe.experts.0.w1.weight", &[4, 4]));
    ws.push(w("model.layers.0.block_sparse_moe.experts.0.w3.weight", &[4, 4]));
    assert_eq!(
        plan_transformer(&ws),
        Err(PlanFailure::Abort("called `Option::unwrap()` on a `None` value".to_string()))
    );
}
