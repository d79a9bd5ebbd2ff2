use torch_rs::buffer::Buffer;
use torch_rs::ops::matmul::matmul;
use torch_rs::tensor::{Graph, Tensor};

fn mm_ints(shape: Vec<usize>, vals: Vec<i64>) -> Buffer {
    Buffer::from_ints(shape, vals).unwrap()
}

#[test]
fn test_tensor_matmul_2d() {
    let mut g = Graph::new();
    let a = Tensor::new(&mut g, mm_ints(vec![2, 2], vec![1, 2, 3, 4]));
    let b = Tensor::new(&mut g, mm_ints(vec![2, 2], vec![5, 6, 7, 8]));
    let result = matmul(&mut g, a, b).unwrap();
    // A:[2,2], B:[2,2] -> [[1*5+2*7, 1*6+2*8], [3*5+4*7, 3*6+4*8]] = [[19, 22], [43, 50]]
    let expected = mm_ints(vec![2, 2], vec![19, 22, 43, 50]);
    assert!(result.data(&g).eqv(&expected));
}

#[test]
fn test_tensor_matmul_2d_grad() {
    let mut g = Graph::new();
    let a = Tensor::new(&mut g, mm_ints(vec![2, 2], vec![1, 2, 3, 4])).require_grad(&mut g, true);
    let b = Tensor::new(&mut g, mm_ints(vec![2, 2], vec![5, 6, 7, 8])).require_grad(&mut g, true);
    let result = matmul(&mut g, a, b).unwrap();
    result.backward(&mut g).unwrap();
    // grad_a = gradOut @ b.T = [[1,1],[1,1]] @ [[5,7],[6,8]] = [[11,15],[11,15]]
    let expected_grad_a = mm_ints(vec![2, 2], vec![11, 15, 11, 15]);
    assert!(a.grad(&g).unwrap().eqv(&expected_grad_a));
    // grad_b = a.T @ gradOut = [[1,3],[2,4]] @ [[1,1],[1,1]] = [[4,4],[6,6]]
    let expected_grad_b = mm_ints(vec![2, 2], vec![4, 4, 6, 6]);
    assert!(b.grad(&g).unwrap().eqv(&expected_grad_b));
}

#[test]
fn test_tensor_3d_matmul() {
    let mut g = Graph::new();
    // a: [batch, channel, input] -> [2, 2, 3]; b: [input, output] -> [3, 4]
    let a = Tensor::new(
        &mut g,
        mm_ints(vec![2, 2, 3], vec![1, 2, 3, 4, 5, 6, 7, 8, 9, 10, 11, 12]),
    );
    let b = Tensor::new(
        &mut g,
        mm_ints(vec![3, 4], vec![1, 2, 3, 4, 5, 6, 7, 8, 9, 10, 11, 12]),
    );
    let result = matmul(&mut g, a, b).unwrap();
    assert_eq!(result.shape(&g), vec![2, 2, 4]);
    let expected = mm_ints(
        vec![2, 2, 4],
        vec![38, 44, 50, 56, 83, 98, 113, 128, 128, 152, 176, 200, 173, 206, 239, 272],
    );
    assert!(result.data(&g).eqv(&expected));
}

#[test]
fn test_tensor_3d_matmul_grad() {
    let mut g = Graph::new();
    // a: [batch, channel, input] -> [1, 2, 2]; b: [input, output] -> [2, 2]
    let a =
        Tensor::new(&mut g, mm_ints(vec![1, 2, 2], vec![1, 2, 3, 4])).require_grad(&mut g, true);
    let b = Tensor::new(&mut g, mm_ints(vec![2, 2], vec![5, 6, 7, 8])).require_grad(&mut g, true);
    let result = matmul(&mut g, a, b).unwrap();
    result.backward(&mut g).unwrap();

    let expected_grad_a = mm_ints(vec![1, 2, 2], vec![11, 15, 11, 15]);
    assert!(a.grad(&g).unwrap().eqv(&expected_grad_a));

    let expected_grad_b = mm_ints(vec![2, 2], vec![4, 4, 6, 6]);
    assert!(b.grad(&g).unwrap().eqv(&expected_grad_b));
}

#[test]
fn test_vectors_matmul() {
    let mut g = Graph::new();
    let a = Tensor::new(&mut g, mm_ints(vec![2, 3], vec![1, 2, 3, 1, 2, 3]))
        .require_grad(&mut g, true);
    let b = Tensor::randn(&mut g, vec![3, 4]).require_grad(&mut g, true);
    let c = Tensor::randn(&mut g, vec![2, 4]).require_grad(&mut g, true);
    let result = matmul(&mut g, a, b).unwrap().add(&mut g, c).unwrap();
    let expected_shape = vec![2, 4];
    assert_eq!(result.shape(&g), expected_shape);
    result.backward(&mut g).unwrap();
    println!("a:{:?}, b:{:?}, c:{:?}", a.data(&g), b.data(&g), c.data(&g));
}
