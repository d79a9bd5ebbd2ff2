use torch_rs::buffer::Buffer;
use torch_rs::tensor::{Graph, Tensor};

fn ints(shape: Vec<usize>, vals: Vec<i64>) -> Buffer {
    Buffer::from_ints(shape, vals).unwrap()
}

fn tenths(shape: Vec<usize>, nums: Vec<i64>) -> Buffer {
    let dens = vec![10; nums.len()];
    Buffer::from_fracs(shape, nums, dens).unwrap()
}

#[test]
fn test_tensor_add() {
    let mut g = Graph::new();
    let a = Tensor::new(&mut g, ints(vec![2, 2], vec![1, 2, 3, 4]));
    let b = Tensor::new(&mut g, ints(vec![2, 2], vec![5, 6, 7, 8]));

    let result = a.add(&mut g, b).unwrap();

    let expected = ints(vec![2, 2], vec![6, 8, 10, 12]);
    assert!(result.data(&g).eqv(&expected));
}

#[test]
fn test_tensor_add_grad() {
    let mut g = Graph::new();
    let a = Tensor::new(&mut g, ints(vec![2, 2], vec![1, 2, 3, 4])).require_grad(&mut g, true);
    let b = Tensor::new(&mut g, ints(vec![2, 2], vec![5, 6, 7, 8])).require_grad(&mut g, true);

    let result = a.add(&mut g, b).unwrap();
    result.backward(&mut g).unwrap();

    let expected = ints(vec![2, 2], vec![1, 1, 1, 1]);
    assert!(a.grad(&g).unwrap().eqv(&expected));
    assert!(b.grad(&g).unwrap().eqv(&expected));
}

#[test]
fn test_tensor_batch_add() {
    let mut g = Graph::new();
    let a = Tensor::new(
        &mut g,
        ints(vec![2, 2, 3], vec![1, 2, 3, 4, 5, 6, 7, 8, 9, 10, 11, 12]),
    );
    let b = Tensor::new(
        &mut g,
        tenths(vec![2, 2, 3], vec![1, 2, 3, 4, 5, 6, 7, 8, 9, 10, 11, 12]),
    );

    let result = a.add(&mut g, b).unwrap();

    assert_eq!(result.shape(&g), vec![2, 2, 3]);
    let expected = tenths(
        vec![2, 2, 3],
        vec![11, 22, 33, 44, 55, 66, 77, 88, 99, 110, 121, 132],
    );
    assert!(result.data(&g).eqv(&expected));
}

#[test]
fn test_tensor_batch_add_grad() {
    let mut g = Graph::new();
    let a = Tensor::new(
        &mut g,
        ints(vec![2, 2, 3], vec![1, 2, 3, 4, 5, 6, 7, 8, 9, 10, 11, 12]),
    )
    .require_grad(&mut g, true);
    let b = Tensor::new(
        &mut g,
        tenths(vec![2, 2, 3], vec![1, 2, 3, 4, 5, 6, 7, 8, 9, 10, 11, 12]),
    )
    .require_grad(&mut g, true);

    let result = a.add(&mut g, b).unwrap();
    result.backward(&mut g).unwrap();

    let expected_grad = ints(vec![2, 2, 3], vec![1; 12]);
    assert!(a.grad(&g).unwrap().eqv(&expected_grad));
    assert!(b.grad(&g).unwrap().eqv(&expected_grad));
}

#[test]
fn test_tensor_batch_broadcasting() {
    let mut g = Graph::new();
    let batch_tensor = Tensor::new(
        &mut g,
        ints(vec![3, 2, 2], vec![1, 2, 3, 4, 5, 6, 7, 8, 9, 10, 11, 12]),
    );
    let single_tensor = Tensor::new(&mut g, tenths(vec![2, 2], vec![1, 2, 3, 4]));

    let result = batch_tensor.add(&mut g, single_tensor).unwrap();

    let expected = tenths(
        vec![3, 2, 2],
        vec![11, 22, 33, 44, 51, 62, 73, 84, 91, 102, 113, 124],
    );
    assert_eq!(result.shape(&g), vec![3, 2, 2]);
    assert!(result.data(&g).eqv(&expected));
}

#[test]
fn test_tensor_batch_broadcasting_grad() {
    let mut g = Graph::new();
    let batch_tensor = Tensor::new(
        &mut g,
        ints(vec![2, 2, 2], vec![1, 2, 3, 4, 5, 6, 7, 8]),
    )
    .require_grad(&mut g, true);
    let single_tensor =
        Tensor::new(&mut g, tenths(vec![2, 2], vec![1, 2, 3, 4])).require_grad(&mut g, true);

    let result = batch_tensor.add(&mut g, single_tensor).unwrap();
    result.backward(&mut g).unwrap();

    let batch_expected_grad = ints(vec![2, 2, 2], vec![1; 8]);
    let single_expected_grad = ints(vec![2, 2], vec![2, 2, 2, 2]);
    assert!(batch_tensor.grad(&g).unwrap().eqv(&batch_expected_grad));
    assert!(single_tensor.grad(&g).unwrap().eqv(&single_expected_grad));
}

#[test]
fn test_tensor_add_broadcasting() {
    let mut g = Graph::new();
    let a = Tensor::new(&mut g, ints(vec![2, 2], vec![1, 2, 3, 4]));
    let b = Tensor::new(&mut g, ints(vec![2], vec![5, 6]));

    let result = a.add(&mut g, b).unwrap();

    let expected = ints(vec![2, 2], vec![6, 8, 8, 10]);
    assert!(result.data(&g).eqv(&expected));
}
