//! The integer side of tensors: how many elements a shape holds, and the
//! shape checks of the element-wise and matrix operations.

use vstd::prelude::*;

use crate::tensor::DataType;
use crate::text::{decimal, decimal_string};

verus! {

broadcast use vstd::string::group_string_axioms;

/// The number of elements of a tensor of shape `s`: the product of its
/// dimensions (1 for the empty shape).
pub open spec fn product(s: Seq<usize>) -> nat
    decreases s.len(),
{
    if s.len() == 0 {
        1
    } else {
        product(s.drop_last()) * (s.last() as nat)
    }
}

/// Whether the product of every prefix of `s` fits in a `usize`, so that
/// multiplying the dimensions from the left never overflows.
pub open spec fn product_fits(s: Seq<usize>) -> bool
    decreases s.len(),
{
    s.len() == 0 || (product_fits(s.drop_last()) && product(s) <= usize::MAX)
}

proof fn lemma_prefix_fits(s: Seq<usize>, k: int)
    requires
        product_fits(s),
        0 <= k <= s.len(),
    ensures
        product_fits(s.take(k)),
        product(s.take(k)) <= usize::MAX,
    decreases s.len(),
{
    if k == s.len() {
        assert(s.take(k) =~= s);
    } else {
        lemma_prefix_fits(s.drop_last(), k);
        assert(s.drop_last().take(k) =~= s.take(k));
    }
}

/// The dimensions of a shape in decimal, separated by `, `.
pub open spec fn joined_dims(s: Seq<usize>) -> Seq<char>
    decreases s.len(),
{
    if s.len() == 0 {
        Seq::empty()
    } else if s.len() == 1 {
        decimal(s[0] as nat)
    } else {
        joined_dims(s.drop_last()) + ", "@ + decimal(s.last() as nat)
    }
}

/// How a shape is shown in messages, as `{:?}` prints a vector of
/// `usize`: `[2, 3]`.
pub open spec fn debug_shape(shape: Seq<usize>) -> Seq<char> {
    "["@ + joined_dims(shape) + "]"@
}

/// The text of a shape, such as `[2, 3]`.
pub fn shape_debug(shape: &Vec<usize>) -> (s: String)
    ensures
        s@ == debug_shape(shape@),
{
    let mut s = "[".to_owned();
    let mut i: usize = 0;
    while i < shape.len()
        invariant
            i <= shape@.len(),
            s@ == "["@ + joined_dims(shape@.take(i as int)),
        decreases shape@.len() - i,
    {
        let ghost before = s@;
        if i > 0 {
            s.append(", ");
        }
        let digits = decimal_string(shape[i] as u64);
        s.append(digits.as_str());
        proof {
            let t = shape@.take(i + 1);
            assert(t.drop_last() =~= shape@.take(i as int));
            assert(t.last() == shape@[i as int]);
            if i == 0 {
                assert(shape@.take(0) =~= Seq::<usize>::empty());
                assert(before + digits@ =~= "["@ + decimal(shape@[0] as nat));
            } else {
                assert(before + ", "@ + digits@ =~= "["@ + (joined_dims(shape@.take(i as int))
                    + ", "@ + decimal(shape@[i as int] as nat)));
            }
        }
        i = i + 1;
    }
    assert(shape@.take(shape@.len() as int) =~= shape@);
    s.append("]");
    s
}

/// The message of a failed element-wise shape check.
pub open spec fn mismatch_message(a: Seq<usize>, b: Seq<usize>) -> Seq<char> {
    "shape mismatch: "@ + debug_shape(a) + " and "@ + debug_shape(b)
}

/// The message of a failed matrix-product dimension check.
pub open spec fn incompatible_message(a: Seq<usize>, b: Seq<usize>) -> Seq<char> {
    "incompatible dimensions for MatMul: "@ + debug_shape(a) + " and "@ + debug_shape(b)
}

/// The number of elements of a tensor of shape `shape`.
pub fn element_count(shape: &Vec<usize>) -> (n: usize)
    requires
        product_fits(shape@),
    ensures
        n == product(shape@),
{
    let mut n: usize = 1;
    let len = shape.len();
    for i in 0..len
        invariant
            len == shape@.len(),
            product_fits(shape@),
            n == product(shape@.take(i as int)),
    {
        assert(shape@.take(i + 1).drop_last() =~= shape@.take(i as int));
        proof {
            lemma_prefix_fits(shape@, i + 1);
        }
        n = n * shape[i];
    }
    assert(shape@.take(len as int) =~= shape@);
    n
}

/// The number of elements of a new zero tensor of shape `shape` and
/// element type `dtype`; only `Float32` tensors can be made.
pub fn new_tensor_len(shape: &Vec<usize>, dtype: DataType) -> (r: Result<usize, String>)
    requires
        dtype == DataType::Float32 ==> product_fits(shape@),
    ensures
        match r {
            Ok(n) => dtype == DataType::Float32 && n == product(shape@),
            Err(e) => dtype != DataType::Float32 && e@ == "currently only Float32 is supported"@,
        },
{
    match dtype {
        DataType::Float32 => Ok(element_count(shape)),
        _ => Err("currently only Float32 is supported".to_owned()),
    }
}

fn same_shape(a: &Vec<usize>, b: &Vec<usize>) -> (r: bool)
    ensures
        r == (a@ == b@),
{
    if a.len() != b.len() {
        return false;
    }
    let n = a.len();
    for i in 0..n
        invariant
            n == a@.len(),
            n == b@.len(),
            forall|j: int| 0 <= j < i ==> a@[j] == b@[j],
    {
        if a[i] != b[i] {
            return false;
        }
    }
    assert(a@ =~= b@);
    true
}

/// The shape check of element-wise addition and multiplication: both
/// operands must have the same shape.
pub fn check_same_shape(a: &Vec<usize>, b: &Vec<usize>) -> (r: Result<(), String>)
    ensures
        match r {
            Ok(_) => a@ == b@,
            Err(e) => a@ != b@ && e@ == mismatch_message(a@, b@),
        },
{
    if same_shape(a, b) {
        Ok(())
    } else {
        let mut msg = "shape mismatch: ".to_owned();
        let left = shape_debug(a);
        msg.append(left.as_str());
        msg.append(" and ");
        let right = shape_debug(b);
        msg.append(right.as_str());
        Err(msg)
    }
}

/// The shape of the matrix product of tensors of shapes `a` and `b`: both
/// must be two-dimensional, and the columns of `a` must match the rows of
/// `b`; the product has `a`'s rows and `b`'s columns.
pub fn matmul_shape(a: &Vec<usize>, b: &Vec<usize>) -> (r: Result<Vec<usize>, String>)
    ensures
        match r {
            Ok(s) => a@.len() == 2 && b@.len() == 2 && a@[1] == b@[0] && s@ == seq![a@[0], b@[1]],
            Err(e) => if a@.len() != 2 || b@.len() != 2 {
                e@ == "MatMul currently only supports 2D tensors"@
            } else {
                a@[1] != b@[0] && e@ == incompatible_message(a@, b@)
            },
        },
{
    if a.len() != 2 || b.len() != 2 {
        return Err("MatMul currently only supports 2D tensors".to_owned());
    }
    if a[1] != b[0] {
        let mut msg = "incompatible dimensions for MatMul: ".to_owned();
        let left = shape_debug(a);
        msg.append(left.as_str());
        msg.append(" and ");
        let right = shape_debug(b);
        msg.append(right.as_str());
        return Err(msg);
    }
    Ok(vec![a[0], b[1]])
}

proof fn lemma_cell_before(a: int, b: int, rows: int, j: int)
    requires
        0 <= a < rows,
        0 <= b < j,
    ensures
        0 <= b * rows + a < j * rows,
{
    assert(0 <= b * rows + a < j * rows) by (nonlinear_arith)
        requires
            0 <= a < rows,
            0 <= b < j,
    ;
}

/// Transposes a `rows` × `cols` matrix of element bit patterns, stored
/// row by row: the result is the `cols` × `rows` matrix whose element
/// `[j][i]` is element `[i][j]` of the input.
pub fn transpose_bits(rows: usize, cols: usize, data: &Vec<u32>) -> (out: Vec<u32>)
    requires
        data@.len() == rows * cols,
    ensures
        out@.len() == rows * cols,
        forall|i: int, j: int|
            0 <= i < rows && 0 <= j < cols ==> #[trigger] out@[j * rows + i] == data@[i * cols + j],
{
    let mut out: Vec<u32> = Vec::new();
    let n = data.len();
    let mut j: usize = 0;
    while j < cols
        invariant
            n == data@.len(),
            j <= cols,
            data@.len() == rows * cols,
            out@.len() == j * rows,
            forall|a: int, b: int|
                0 <= a < rows && 0 <= b < j ==> #[trigger] out@[b * rows + a] == data@[a * cols + b],
        decreases cols - j,
    {
        let mut i: usize = 0;
        while i < rows
            invariant
                n == data@.len(),
                i <= rows,
                j < cols,
                data@.len() == rows * cols,
                out@.len() == j * rows + i,
                forall|a: int, b: int|
                    0 <= a < rows && 0 <= b < j ==> #[trigger] out@[b * rows + a] == data@[a * cols
                        + b],
                forall|a: int| 0 <= a < i ==> #[trigger] out@[j * rows + a] == data@[a * cols + j],
            decreases rows - i,
        {
            assert(i * cols + j < rows * cols) by (nonlinear_arith)
                requires
                    i < rows,
                    j < cols,
            ;
            let ghost before = out@;
            out.push(data[i * cols + j]);
            proof {
                assert forall|a: int, b: int|
                    0 <= a < rows && 0 <= b < j implies #[trigger] out@[b * rows + a] == data@[a
                    * cols + b] by {
                    lemma_cell_before(a, b, rows as int, j as int);
                    assert(out@[b * rows + a] == before[b * rows + a]);
                }
            }
            i = i + 1;
        }
        assert((j + 1) * rows == j * rows + rows) by (nonlinear_arith);
        assert forall|a: int, b: int| 0 <= a < rows && 0 <= b < j + 1 implies #[trigger] out@[b
            * rows + a] == data@[a * cols + b] by {
            if b < j {
            } else {
                assert(b == j);
            }
        }
        j = j + 1;
    }
    assert(out@.len() == rows * cols) by (nonlinear_arith)
        requires
            out@.len() == j * rows,
            j == cols,
    ;
    out
}

} // verus!
