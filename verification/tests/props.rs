use torch_rs::buffer::Buffer;
use torch_rs::ops::matmul::matmul;
use torch_rs::ops::relu::relu;
use torch_rs::rat::Rat;
use torch_rs::tensor::{Graph, Operation, Tensor};
use torch_rs::TensorError;

fn pr_ints(shape: Vec<usize>, vals: Vec<i64>) -> Buffer {
    Buffer::from_ints(shape, vals).unwrap()
}

fn pr_fracs(shape: Vec<usize>, nums: Vec<i64>, den: i64) -> Buffer {
    let dens = vec![den; nums.len()];
    Buffer::from_fracs(shape, nums, dens).unwrap()
}

#[test]
fn test_factories_and_counts() {
    let mut g = Graph::new();
    for shape in [vec![], vec![4], vec![2, 3], vec![2, 0, 3]] {
        let product: usize = shape.iter().product();
        let z = Tensor::zeros(&mut g, shape.clone());
        assert_eq!(z.shape(&g), shape);
        assert_eq!(z.numel(&g), product);
        let zb = z.data(&g);
        for i in 0..zb.data.len() {
            assert!(zb.data[i].eqv(Rat::zero()));
        }
        let o = Tensor::ones(&mut g, shape.clone());
        assert_eq!(o.numel(&g), product);
        let ob = o.data(&g);
        for i in 0..ob.data.len() {
            assert!(ob.data[i].eqv(Rat::one()));
        }
    }
}

#[test]
fn test_batch_reduction_fan_in() {
    // a batch operand [2,2,3] broadcast against a non-batch [2,3]:
    // after mean().backward() the non-batch gradient is the sum of the
    // batch gradient over the batch axis, not a broadcast copy
    let mut g = Graph::new();
    let batch = Tensor::new(
        &mut g,
        pr_ints(vec![2, 2, 3], vec![1, 2, 3, 4, 5, 6, 7, 8, 9, 10, 11, 12]),
    )
    .require_grad(&mut g, true);
    let single =
        Tensor::new(&mut g, pr_ints(vec![2, 3], vec![1, 2, 3, 4, 5, 6])).require_grad(&mut g, true);
    let sum = batch.add(&mut g, single).unwrap();
    let loss = sum.mean(&mut g).unwrap();
    loss.backward(&mut g).unwrap();

    let batch_grad = pr_fracs(vec![2, 2, 3], vec![1; 12], 12);
    assert!(batch.grad(&g).unwrap().eqv(&batch_grad));
    let single_grad = pr_fracs(vec![2, 3], vec![2; 6], 12);
    assert!(single.grad(&g).unwrap().eqv(&single_grad));
}

#[test]
fn test_reshape_round_trip() {
    let mut g = Graph::new();
    let x = Tensor::new(&mut g, pr_ints(vec![2, 3], vec![1, 2, 3, 4, 5, 6]));
    let bent = x.reshape(&mut g, vec![3, 2]).unwrap();
    let back = bent.reshape(&mut g, vec![2, 3]).unwrap();
    assert_eq!(back.shape(&g), vec![2, 3]);
    assert!(back.data(&g).eqv(&x.data(&g)));
}

#[test]
fn test_diamond_fan_out_accumulation() {
    // c = relu(a), d = relu(a), e = c + d: a receives the sum of both
    // paths' contributions
    let mut g = Graph::new();
    let a = Tensor::new(&mut g, pr_ints(vec![3], vec![1, 2, 3])).require_grad(&mut g, true);
    let c = relu(&mut g, a);
    let d = relu(&mut g, a);
    let e = c.add(&mut g, d).unwrap();
    e.backward(&mut g).unwrap();
    let expected = pr_ints(vec![3], vec![2, 2, 2]);
    assert!(a.grad(&g).unwrap().eqv(&expected));
}

#[test]
fn test_mean_value() {
    let mut g = Graph::new();
    let a = Tensor::new(&mut g, pr_ints(vec![3], vec![1, 2, 3]));
    let m = a.mean(&mut g).unwrap();
    assert_eq!(m.shape(&g), Vec::<usize>::new());
    assert!(m.data(&g).eqv(&pr_ints(vec![], vec![2])));

    // a non-integer mean is exact as well
    let b = Tensor::new(&mut g, pr_ints(vec![2], vec![1, 2]));
    let mb = b.mean(&mut g).unwrap();
    assert!(mb.data(&g).eqv(&pr_fracs(vec![], vec![3], 2)));
}

#[test]
fn test_relu_forward_and_backward() {
    let mut g = Graph::new();
    let a = Tensor::new(&mut g, pr_ints(vec![4], vec![-2, 0, 1, 3])).require_grad(&mut g, true);
    let r = relu(&mut g, a);
    assert!(r.data(&g).eqv(&pr_ints(vec![4], vec![0, 0, 1, 3])));
    r.backward(&mut g).unwrap();
    // zero itself gets a zero gradient
    assert!(a.grad(&g).unwrap().eqv(&pr_ints(vec![4], vec![0, 0, 1, 1])));
}

#[test]
fn test_shape_error_cases() {
    let mut g = Graph::new();
    let a = Tensor::new(&mut g, pr_ints(vec![2, 3], vec![1, 2, 3, 4, 5, 6]));
    let b = Tensor::new(&mut g, pr_ints(vec![2, 2], vec![1, 2, 3, 4]));
    assert_eq!(a.add(&mut g, b), Err(TensorError::ShapeError));
    assert_eq!(a.mul(&mut g, b), Err(TensorError::ShapeError));
    assert_eq!(matmul(&mut g, a, b), Err(TensorError::ShapeError));
    assert_eq!(a.reshape(&mut g, vec![4, 2]), Err(TensorError::ShapeError));
    assert_eq!(a.index(&mut g, &vec![0, 3]), Err(TensorError::ShapeError));
    assert_eq!(Tensor::stack(&mut g, &vec![a, b]), Err(TensorError::ShapeError));
    assert_eq!(Tensor::stack(&mut g, &vec![]), Err(TensorError::ShapeError));
}

#[test]
fn test_unsupported_rank() {
    let mut g = Graph::new();
    let a = Tensor::new(&mut g, pr_ints(vec![2], vec![1, 2]));
    let b = Tensor::new(&mut g, pr_ints(vec![2, 2], vec![1, 2, 3, 4]));
    assert_eq!(matmul(&mut g, a, b), Err(TensorError::UnsupportedRank));
    let c = Tensor::new(&mut g, pr_ints(vec![2, 2], vec![1, 2, 3, 4]));
    let d = Tensor::new(&mut g, pr_ints(vec![2], vec![1, 2]));
    assert_eq!(matmul(&mut g, c, d), Err(TensorError::UnsupportedRank));
}

#[test]
fn test_empty_tensor_error() {
    let mut g = Graph::new();
    let a = Tensor::new(&mut g, pr_ints(vec![0], vec![]));
    assert_eq!(a.mean(&mut g), Err(TensorError::EmptyTensor));
}

#[test]
fn test_overflow_error() {
    let mut g = Graph::new();
    let big = 1i64 << 62;
    let a = Tensor::new(&mut g, pr_ints(vec![1], vec![big]));
    let b = Tensor::new(&mut g, pr_ints(vec![1], vec![4]));
    assert_eq!(a.mul(&mut g, b), Err(TensorError::Overflow));
}

#[test]
fn test_missing_gradient_error() {
    let op = Operation::Relu {
        in_data: pr_ints(vec![2], vec![1, 2]),
    };
    match op.backward(&None) {
        Err(e) => assert_eq!(e, TensorError::MissingGradient),
        Ok(_) => panic!("a backward step without a gradient must fail"),
    }
}

#[test]
fn test_stack_values() {
    let mut g = Graph::new();
    let a = Tensor::new(&mut g, pr_ints(vec![2], vec![1, 2]));
    let b = Tensor::new(&mut g, pr_ints(vec![2], vec![3, 4]));
    let s = Tensor::stack(&mut g, &vec![a, b]).unwrap();
    assert_eq!(s.shape(&g), vec![2, 2]);
    assert!(s.data(&g).eqv(&pr_ints(vec![2, 2], vec![1, 2, 3, 4])));
    assert!(s.is_leaf(&g));
}

#[test]
fn test_index_value() {
    let mut g = Graph::new();
    let a = Tensor::new(&mut g, pr_ints(vec![2, 3], vec![1, 2, 3, 4, 5, 6]));
    let e = a.index(&mut g, &vec![1, 2]).unwrap();
    assert_eq!(e.dim(&g), 0);
    assert!(e.data(&g).eqv(&pr_ints(vec![], vec![6])));
}

#[test]
fn test_clear_grad_and_set_data() {
    let mut g = Graph::new();
    let a = Tensor::new(&mut g, pr_ints(vec![2], vec![1, 2])).require_grad(&mut g, true);
    let b = Tensor::new(&mut g, pr_ints(vec![2], vec![3, 4])).require_grad(&mut g, true);
    let c = a.add(&mut g, b).unwrap();
    c.backward(&mut g).unwrap();
    assert!(a.grad(&g).is_some());
    a.clear_grad(&mut g);
    assert!(a.grad(&g).is_none());

    // the in-place parameter update an optimizer performs
    assert!(a.set_data(&mut g, pr_ints(vec![2], vec![9, 9])).is_ok());
    assert!(a.data(&g).eqv(&pr_ints(vec![2], vec![9, 9])));
    assert_eq!(
        a.set_data(&mut g, pr_ints(vec![3], vec![9, 9, 9])),
        Err(TensorError::ShapeError)
    );
}

#[test]
fn test_rational_representations_compare_equal() {
    let mut g = Graph::new();
    let a = Tensor::new(&mut g, pr_fracs(vec![2], vec![2, 4], 6));
    let b = Tensor::new(&mut g, pr_fracs(vec![2], vec![1, 2], 3));
    assert!(a.data(&g).eqv(&b.data(&g)));
    assert!(Rat::new(2, 6).unwrap().eqv(Rat::new(1, 3).unwrap()));
    assert!(!Rat::new(2, 5).unwrap().eqv(Rat::new(1, 3).unwrap()));
}

#[test]
fn test_detach_breaks_linkage() {
    // gradients reach the original leaf but never the detached copy
    let mut g = Graph::new();
    let a = Tensor::new(&mut g, pr_ints(vec![2], vec![1, 2])).require_grad(&mut g, true);
    let b = a.add(&mut g, a).unwrap();
    let det = b.detach(&mut g);
    assert!(!det.requires_grad(&g));
    assert!(det.is_leaf(&g));
    b.backward(&mut g).unwrap();
    assert!(a.grad(&g).unwrap().eqv(&pr_ints(vec![2], vec![2, 2])));
    assert!(det.grad(&g).is_none());
}
