use torch_rs::buffer::Buffer;
use torch_rs::tensor::{Graph, Tensor};

fn ml_ints(shape: Vec<usize>, vals: Vec<i64>) -> Buffer {
    Buffer::from_ints(shape, vals).unwrap()
}

#[test]
fn test_mul() {
    let mut g = Graph::new();
    let a = Tensor::new(&mut g, ml_ints(vec![3], vec![1, 2, 3]))
        .reshape(&mut g, vec![3, 1])
        .unwrap();
    let b = Tensor::new(&mut g, ml_ints(vec![3], vec![4, 5, 6]))
        .reshape(&mut g, vec![3, 1])
        .unwrap();

    let result = a.mul(&mut g, b).unwrap();

    let expected = ml_ints(vec![3, 1], vec![4, 10, 18]);
    assert!(result.data(&g).eqv(&expected));
}

#[test]
fn test_mul_scalar() {
    let mut g = Graph::new();
    let a = Tensor::new(&mut g, ml_ints(vec![3], vec![1, 2, 3]))
        .reshape(&mut g, vec![3, 1])
        .unwrap();

    let scalar = Tensor::new(&mut g, ml_ints(vec![1], vec![2]));
    let result = a.mul(&mut g, scalar).unwrap();

    let expected = ml_ints(vec![3, 1], vec![2, 4, 6]);
    assert!(result.data(&g).eqv(&expected));
}

#[test]
fn test_mul_scalar_grad() {
    let mut g = Graph::new();
    // only a node that takes part in differentiation receives a gradient
    let a = Tensor::new(&mut g, ml_ints(vec![3], vec![1, 2, 3]))
        .reshape(&mut g, vec![3, 1])
        .unwrap()
        .require_grad(&mut g, true);

    let scalar = Tensor::new(&mut g, ml_ints(vec![1], vec![2]));
    let result = a.mul(&mut g, scalar).unwrap();

    result.backward(&mut g).unwrap();

    let expected_grad = ml_ints(vec![3, 1], vec![2, 2, 2]);
    assert!(a.grad(&g).unwrap().eqv(&expected_grad));
}
