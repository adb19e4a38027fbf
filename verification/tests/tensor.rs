use mentat::tensor::shape::{
    check_same_shape, element_count, matmul_shape, new_tensor_len, shape_debug, transpose_bits,
};
use mentat::tensor::DataType;

#[test]
fn element_counts() {
    assert_eq!(element_count(&vec![]), 1);
    assert_eq!(element_count(&vec![2, 3, 4]), 24);
    assert_eq!(element_count(&vec![5, 0, 7]), 0);
}

#[test]
fn new_tensor_needs_float32() {
    assert_eq!(new_tensor_len(&vec![2, 2], DataType::Float32), Ok(4));
    assert_eq!(
        new_tensor_len(&vec![2, 2], DataType::Int32),
        Err("currently only Float32 is supported".to_string())
    );
    assert_eq!(
        new_tensor_len(&vec![1], DataType::Float16),
        Err("currently only Float32 is supported".to_string())
    );
}

#[test]
fn element_wise_shape_check() {
    assert_eq!(check_same_shape(&vec![2, 2], &vec![2, 2]), Ok(()));
    assert_eq!(
        check_same_shape(&vec![2, 2], &vec![2, 3]),
        Err("shape mismatch: [2, 2] and [2, 3]".to_string())
    );
    assert_eq!(
        check_same_shape(&vec![4], &vec![2, 2]),
        Err("shape mismatch: [4] and [2, 2]".to_string())
    );
}

#[test]
fn matmul_shapes() {
    assert_eq!(matmul_shape(&vec![2, 3], &vec![3, 2]), Ok(vec![2, 2]));
    assert_eq!(matmul_shape(&vec![1, 4], &vec![4, 7]), Ok(vec![1, 7]));
    assert_eq!(
        matmul_shape(&vec![2, 3], &vec![2, 3]),
        Err("incompatible dimensions for MatMul: [2, 3] and [2, 3]".to_string())
    );
    assert_eq!(
        matmul_shape(&vec![2, 3, 1], &vec![3, 2]),
        Err("MatMul currently only supports 2D tensors".to_string())
    );
    assert_eq!(
        matmul_shape(&vec![6], &vec![6, 1]),
        Err("MatMul currently only supports 2D tensors".to_string())
    );
}

#[test]
fn new_tensor_refuses_other_types_before_counting() {
    assert_eq!(
        new_tensor_len(&vec![usize::MAX, 2], DataType::Int32),
        Err("currently only Float32 is supported".to_string())
    );
}

#[test]
fn transpose_two_by_three() {
    assert_eq!(transpose_bits(2, 3, &vec![1, 2, 3, 4, 5, 6]), vec![1, 4, 2, 5, 3, 6]);
    assert_eq!(transpose_bits(1, 3, &vec![7, 8, 9]), vec![7, 8, 9]);
    assert_eq!(transpose_bits(0, 5, &vec![]), Vec::<u32>::new());
}

#[test]
fn shape_text() {
    assert_eq!(shape_debug(&vec![]), "[]");
    assert_eq!(shape_debug(&vec![7]), "[7]");
    assert_eq!(shape_debug(&vec![2, 30, 400]), "[2, 30, 400]");
    assert_eq!(shape_debug(&vec![2, 3]), format!("{:?}", vec![2usize, 3]));
}
