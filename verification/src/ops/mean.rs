//! Mean reduction.
//!
//! The forward rule reduces the whole operand to one rank-0 value, its
//! arithmetic mean; the backward rule spreads the output gradient
//! equally, giving every operand element `gradOut / numel`.

use vstd::prelude::*;
use crate::rat::{Rat, rat_mul, mul_fits};
use crate::kernel::sum_upto;
use crate::buffer::Buffer;
use crate::shape::prod;
use crate::tensor::{
    Graph, Tensor, TensorData, Operation, OpV, NodeV, graph_inv, node_wf, op_wf, lemma_push_wf,
};
use crate::TensorError;

verus! {

/// One over the element count of `in_shape`, the factor the mean and
/// its backward rule scale by.
pub open spec fn inv_numel(in_shape: Seq<usize>) -> Rat {
    Rat { num: 1, den: prod(in_shape) as i64 }
}

/// The node a mean reduction of `a` appends.
pub open spec fn mean_node(g0: Seq<NodeV>, a: int) -> NodeV {
    let na = g0[a];
    let s = sum_upto(na.data, na.data.len()).unwrap();
    NodeV {
        shape: Seq::empty(),
        data: seq![rat_mul(s, inv_numel(na.shape))],
        grad: None,
        requires_grad: na.requires_grad,
        creator: if na.requires_grad {
            Some(OpV::Mean { in_shape: na.shape })
        } else {
            None
        },
        parents: if na.requires_grad {
            seq![a as usize]
        } else {
            Seq::empty()
        },
    }
}

/// What reducing node `a` to its mean does to the graph.
pub open spec fn mean_result(g0: Seq<NodeV>, a: int) -> Result<Seq<NodeV>, TensorError> {
    let na = g0[a];
    if na.data.len() == 0 {
        Err(TensorError::EmptyTensor)
    } else if na.data.len() > i64::MAX {
        Err(TensorError::Overflow)
    } else if sum_upto(na.data, na.data.len()) is None {
        Err(TensorError::Overflow)
    } else if !mul_fits(sum_upto(na.data, na.data.len()).unwrap(), inv_numel(na.shape)) {
        Err(TensorError::Overflow)
    } else {
        Ok(g0.push(mean_node(g0, a)))
    }
}

/// The mean reduction operation.
pub struct Mean {
    /// The shape of the operand, kept for the backward rule.
    pub input_shape: Vec<usize>,
}

impl Mean {
    /// Records the operand shape.
    pub fn new(input_shape: Vec<usize>) -> (r: Mean)
        ensures
            r.input_shape == input_shape,
    {
        Mean { input_shape }
    }

    /// Appends the rank-0 node holding the mean of `a`, linking the
    /// operand when it takes part in differentiation.
    pub fn forward(&self, g: &mut Graph, a: Tensor) -> (r: Result<Tensor, TensorError>)
        requires
            graph_inv(*old(g)),
            a.id < old(g)@.len(),
        ensures
            r matches Ok(t) ==> {
                &&& t.id == old(g)@.len()
                &&& mean_result(old(g)@, a.id as int) == Ok::<Seq<NodeV>, TensorError>(final(g)@)
                &&& graph_inv(*final(g))
            },
            r matches Err(e) ==> final(g)@ == old(g)@ && mean_result(old(g)@, a.id as int) == Err::<
                Seq<NodeV>,
                TensorError,
            >(e),
    {
        let ghost g0 = g@;
        proof {
            assert(node_wf(g@, a.id as int));
        }
        let numel = g.nodes[a.id].data.data.len();
        if numel == 0 {
            return Err(TensorError::EmptyTensor);
        }
        if numel as u64 > i64::MAX as u64 {
            return Err(TensorError::Overflow);
        }
        let s = match crate::kernel::sum_vec(&g.nodes[a.id].data.data) {
            Some(s) => s,
            None => {
                return Err(TensorError::Overflow);
            },
        };
        let inv = Rat { num: 1, den: numel as i64 };
        let val = match s.checked_mul(inv) {
            Some(v) => v,
            None => {
                return Err(TensorError::Overflow);
            },
        };
        let a_req = g.nodes[a.id].requires_grad;
        let mut data: Vec<Rat> = Vec::new();
        data.push(val);
        let mut td = TensorData::new(Buffer { shape: Vec::new(), data });
        td.requires_grad = a_req;
        if a_req {
            let in_shape = g.nodes[a.id].data.duplicate().shape;
            td.set_creator(Operation::Mean { in_shape });
            td.add_parent(a);
        }
        proof {
            assert(prod(Seq::<usize>::empty()) == 1);
            if a_req {
                assert(td@.parents =~= seq![a.id]);
            } else {
                assert(td@.parents =~= Seq::<usize>::empty());
            }
            assert(td@.data =~= seq![
                rat_mul(
                    sum_upto(g0[a.id as int].data, g0[a.id as int].data.len()).unwrap(),
                    inv_numel(g0[a.id as int].shape),
                ),
            ]);
            assert(td@ =~= mean_node(g0, a.id as int));
            if a_req {
                let op = td@.creator.unwrap();
                let g2 = g0.push(td@);
                assert(crate::tensor::op_parent_shapes(op).len() == td@.parents.len());
                assert(forall|k: int|
                    0 <= k < td@.parents.len() ==> g2[#[trigger] td@.parents[k] as int].shape
                        == crate::tensor::op_parent_shapes(op)[k]);
                assert(op_wf(g2, g0.len() as int, op));
            }
            lemma_push_wf(g0, td@);
        }
        g.nodes.push(td);
        proof {
            assert(g@ =~= g0.push(mean_node(g0, a.id as int)));
        }
        Ok(Tensor { id: g.nodes.len() - 1 })
    }
}

/// Reduces a node to its mean, as a free function.
pub fn mean(g: &mut Graph, a: Tensor) -> (r: Result<Tensor, TensorError>)
    requires
        graph_inv(*old(g)),
        a.id < old(g)@.len(),
    ensures
        r matches Ok(t) ==> {
            &&& t.id == old(g)@.len()
            &&& mean_result(old(g)@, a.id as int) == Ok::<Seq<NodeV>, TensorError>(final(g)@)
            &&& graph_inv(*final(g))
        },
        r matches Err(e) ==> final(g)@ == old(g)@ && mean_result(old(g)@, a.id as int) == Err::<
            Seq<NodeV>,
            TensorError,
        >(e),
{
    let shape = a.shape(g);
    let op = Mean::new(shape);
    op.forward(g, a)
}

impl Tensor {
    /// The mean of every element, as a rank-0 tensor.
    pub fn mean(self, g: &mut Graph) -> (r: Result<Tensor, TensorError>)
        requires
            graph_inv(*old(g)),
            self.id < old(g)@.len(),
        ensures
            r matches Ok(t) ==> {
                &&& t.id == old(g)@.len()
                &&& mean_result(old(g)@, self.id as int) == Ok::<Seq<NodeV>, TensorError>(final(g)@)
                &&& graph_inv(*final(g))
            },
            r matches Err(e) ==> final(g)@ == old(g)@ && mean_result(old(g)@, self.id as int)
                == Err::<Seq<NodeV>, TensorError>(e),
    {
        mean(g, self)
    }
}

} // verus!
