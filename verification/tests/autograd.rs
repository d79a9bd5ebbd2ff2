use torch_rs::buffer::Buffer;
use torch_rs::ops::matmul::matmul;
use torch_rs::tensor::{Graph, Tensor};

fn ag_ints(shape: Vec<usize>, vals: Vec<i64>) -> Buffer {
    Buffer::from_ints(shape, vals).unwrap()
}

fn ag_fracs(shape: Vec<usize>, nums: Vec<i64>, den: i64) -> Buffer {
    let dens = vec![den; nums.len()];
    Buffer::from_fracs(shape, nums, dens).unwrap()
}

#[test]
fn test_add_backward() {
    let mut g = Graph::new();
    let a = Tensor::new(&mut g, ag_ints(vec![3], vec![1, 2, 3])).require_grad(&mut g, true);
    let b = Tensor::new(&mut g, ag_ints(vec![3], vec![4, 5, 6])).require_grad(&mut g, true);
    let c = a.add(&mut g, b).unwrap();
    let d = c.mean(&mut g).unwrap();
    d.backward(&mut g).unwrap();

    // the mean hands every element the gradient 1/3
    let expected = ag_fracs(vec![3], vec![1, 1, 1], 3);
    assert!(a.grad(&g).unwrap().eqv(&expected));
    assert!(b.grad(&g).unwrap().eqv(&expected));
}

#[test]
fn test_mul_backward() {
    let mut g = Graph::new();
    let a = Tensor::new(&mut g, ag_ints(vec![3], vec![2, 3, 4])).require_grad(&mut g, true);
    let b = Tensor::new(&mut g, ag_ints(vec![3], vec![5, 6, 7])).require_grad(&mut g, true);
    let c = a.mul(&mut g, b).unwrap();
    let d = c.mean(&mut g).unwrap();
    d.backward(&mut g).unwrap();

    // chain rule through the product: grad(a) = b / 3, grad(b) = a / 3
    assert!(a.grad(&g).unwrap().eqv(&ag_fracs(vec![3], vec![5, 6, 7], 3)));
    assert!(b.grad(&g).unwrap().eqv(&ag_fracs(vec![3], vec![2, 3, 4], 3)));
}

#[test]
fn test_matmul_backward() {
    let mut g = Graph::new();
    let a = Tensor::new(&mut g, ag_ints(vec![2, 2], vec![1, 2, 3, 4])).require_grad(&mut g, true);
    let b = Tensor::new(&mut g, ag_ints(vec![2, 2], vec![2, 0, 1, 2])).require_grad(&mut g, true);
    let c = matmul(&mut g, a, b).unwrap();
    let d = c.mean(&mut g).unwrap();
    d.backward(&mut g).unwrap();

    assert_eq!(a.grad(&g).unwrap().shape, a.shape(&g));
    assert_eq!(b.grad(&g).unwrap().shape, b.shape(&g));
}

#[test]
fn test_nested_backward() {
    let mut g = Graph::new();
    let a = Tensor::new(&mut g, ag_ints(vec![2, 2], vec![1, 2, 3, 4])).require_grad(&mut g, true);
    let b = Tensor::new(&mut g, ag_ints(vec![2, 2], vec![2, 0, 1, 2])).require_grad(&mut g, true);
    let c = a.add(&mut g, b).unwrap();
    let d = c.mul(&mut g, a).unwrap();
    let e = matmul(&mut g, d, b).unwrap();
    let f = e.mean(&mut g).unwrap();
    f.backward(&mut g).unwrap();

    assert_eq!(a.grad(&g).unwrap().shape, a.shape(&g));
    assert_eq!(b.grad(&g).unwrap().shape, b.shape(&g));
}

#[test]
fn autograd_test_linear() {
    let mut g = Graph::new();
    let input = Tensor::new(&mut g, ag_ints(vec![1, 3], vec![1, 2, 3])).require_grad(&mut g, true);
    let weight =
        Tensor::new(&mut g, ag_fracs(vec![3, 1], vec![1, 1, 1], 2)).require_grad(&mut g, true);
    let bias = Tensor::new(&mut g, ag_ints(vec![1], vec![0])).require_grad(&mut g, true);
    let output = matmul(&mut g, input, weight).unwrap().add(&mut g, bias).unwrap();
    let loss = output.mean(&mut g).unwrap();
    loss.backward(&mut g).unwrap();
    println!("Input :{:?}", input.data(&g));
    println!("Weight:{:?}", weight.data(&g));
    println!("Bias  :{:?}", bias.data(&g));
    println!("Output:{:?}", output.data(&g));
}
