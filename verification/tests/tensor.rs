use torch_rs::buffer::Buffer;
use torch_rs::rat::Rat;
use torch_rs::tensor::{Graph, Tensor};

fn tn_ints(shape: Vec<usize>, vals: Vec<i64>) -> Buffer {
    Buffer::from_ints(shape, vals).unwrap()
}

#[test]
fn test_tensor_creation() {
    let mut g = Graph::new();
    let data = tn_ints(vec![2, 3], vec![1, 2, 3, 4, 5, 6]);
    let tensor = Tensor::new(&mut g, data);
    assert_eq!(tensor.shape(&g), vec![2, 3]);
    assert_eq!(tensor.numel(&g), 6);

    let zeros = Tensor::zeros(&mut g, vec![2, 3]);
    assert_eq!(zeros.shape(&g), vec![2, 3]);
    let zb = zeros.data(&g);
    for i in 0..zb.data.len() {
        assert!(zb.data[i].eqv(Rat::zero()));
    }

    let ones = Tensor::ones(&mut g, vec![2, 3]);
    assert_eq!(ones.shape(&g), vec![2, 3]);
    let ob = ones.data(&g);
    for i in 0..ob.data.len() {
        assert!(ob.data[i].eqv(Rat::one()));
    }

    let rand = Tensor::randn(&mut g, vec![2, 3]);
    assert_eq!(rand.shape(&g), vec![2, 3]);
    assert_eq!(rand.numel(&g), 6);

    let tensor = Tensor::ones(&mut g, vec![3, 4]);
    let zeros_like = tensor.zeros_like(&mut g);
    assert_eq!(zeros_like.shape(&g), vec![3, 4]);
    let zlb = zeros_like.data(&g);
    for i in 0..zlb.data.len() {
        assert!(zlb.data[i].eqv(Rat::zero()));
    }

    let ones_like = tensor.ones_like(&mut g);
    assert_eq!(ones_like.shape(&g), vec![3, 4]);
    let olb = ones_like.data(&g);
    for i in 0..olb.data.len() {
        assert!(olb.data[i].eqv(Rat::one()));
    }

    let rand_like = tensor.rand_like(&mut g);
    assert_eq!(rand_like.shape(&g), vec![3, 4]);
}

#[test]
fn test_tensor_shape_operations() {
    let mut g = Graph::new();
    let tensor = Tensor::ones(&mut g, vec![2, 3]);
    let reshaped = tensor.reshape(&mut g, vec![3, 2]).unwrap();
    assert_eq!(reshaped.shape(&g), vec![3, 2]);

    let result = tensor.view(&mut g, vec![4, 4]);
    assert!(result.is_err());

    let tensor = Tensor::ones(&mut g, vec![2, 1, 3]);
    let squeezed = tensor.squeeze(&mut g, Some(1)).unwrap();
    assert_eq!(squeezed.shape(&g), vec![2, 3]);

    let tensor = Tensor::ones(&mut g, vec![2, 1, 3, 1]);
    let squeezed = tensor.squeeze(&mut g, None).unwrap();
    assert_eq!(squeezed.shape(&g), vec![2, 3]);

    let tensor = Tensor::ones(&mut g, vec![2, 2, 3]);
    let result = tensor.squeeze(&mut g, Some(1));
    assert!(result.is_err());

    let tensor = Tensor::ones(&mut g, vec![2, 3]);
    let unsqueezed = tensor.unsqueeze(&mut g, 1).unwrap();
    assert_eq!(unsqueezed.shape(&g), vec![2, 1, 3]);

    let tensor = Tensor::ones(&mut g, vec![2, 3]);
    let unsqueezed = tensor.unsqueeze(&mut g, 2).unwrap();
    assert_eq!(unsqueezed.shape(&g), vec![2, 3, 1]);

    let tensor = Tensor::ones(&mut g, vec![2, 3]);
    let result = tensor.unsqueeze(&mut g, 4);
    assert!(result.is_err());
}

#[test]
fn test_tensor_grad() {
    let mut g = Graph::new();
    let tensor = Tensor::ones(&mut g, vec![2, 3]);
    assert_eq!(tensor.is_leaf(&g), true);

    let tensor = tensor.require_grad(&mut g, true);
    assert!(tensor.requires_grad(&g));
    assert!(tensor.grad(&g).is_some());

    let tensor = tensor.require_grad(&mut g, false);
    assert!(!tensor.requires_grad(&g));
}

#[test]
fn test_tensor_data_access() {
    let mut g = Graph::new();
    let data = tn_ints(vec![2, 3], vec![1, 2, 3, 4, 5, 6]);
    let expected = tn_ints(vec![2, 3], vec![1, 2, 3, 4, 5, 6]);
    let tensor = Tensor::new(&mut g, data);
    assert!(tensor.data(&g).eqv(&expected));

    assert_eq!(tensor.size(&g, 0), Some(2));
    assert_eq!(tensor.size(&g, 1), Some(3));
    assert_eq!(tensor.size(&g, 2), None);

    assert_eq!(tensor.dim(&g), 2);

    let scalar = Tensor::new(&mut g, tn_ints(vec![], vec![42]));
    let result = scalar.item(&mut g);
    assert!(result.is_ok());

    let tensor = Tensor::ones(&mut g, vec![2, 2]);
    let result = tensor.item(&mut g);
    assert!(result.is_err());
}

#[test]
fn test_tensor_index() {
    let mut g = Graph::new();
    let data = tn_ints(vec![3, 3], vec![1, 2, 3, 4, 5, 6, 7, 8, 9]);
    let tensor = Tensor::new(&mut g, data);

    let result = tensor.index(&mut g, &vec![3, 0]);
    assert!(result.is_err());

    let result = tensor.index(&mut g, &vec![1]);
    assert!(result.is_err());
}

#[test]
fn test_tensor_detach() {
    let mut g = Graph::new();
    let tensor = Tensor::ones(&mut g, vec![2, 3]).require_grad(&mut g, true);

    assert!(tensor.requires_grad(&g));
    assert!(tensor.is_leaf(&g));

    let detached = tensor.detach(&mut g);

    assert!(!detached.requires_grad(&g));
    assert!(detached.is_leaf(&g));
    assert_eq!(g.nodes[detached.id].parents.len(), 0);
    assert!(detached.grad(&g).is_none());

    assert!(tensor.requires_grad(&g));
    assert!(tensor.is_leaf(&g));
}
