//! The elementwise rectifier.
//!
//! The forward rule clamps every element at zero from below; the
//! backward rule passes the output gradient through exactly where the
//! forward input was strictly positive.

use vstd::prelude::*;
use crate::kernel::{relu_map, relu_data};
use crate::tensor::{
    Graph, Tensor, TensorData, Operation, OpV, NodeV, graph_inv, node_wf, op_wf, lemma_push_wf,
};

verus! {

/// The node a rectification of `a` appends.
pub open spec fn relu_node(g0: Seq<NodeV>, a: int) -> NodeV {
    let na = g0[a];
    NodeV {
        shape: na.shape,
        data: relu_data(na.data),
        grad: None,
        requires_grad: na.requires_grad,
        creator: if na.requires_grad {
            Some(OpV::Relu { in_shape: na.shape, in_data: na.data })
        } else {
            None
        },
        parents: if na.requires_grad {
            seq![a as usize]
        } else {
            Seq::empty()
        },
    }
}

/// The elementwise rectifier operation.
pub struct ReLU;

impl ReLU {
    /// The rectifier needs no recorded state of its own.
    pub fn new() -> (r: ReLU) {
        ReLU
    }

    /// Appends the node holding `max(a, 0)` elementwise, linking the
    /// operand when it takes part in differentiation.
    pub fn forward(&self, g: &mut Graph, a: Tensor) -> (t: Tensor)
        requires
            graph_inv(*old(g)),
            a.id < old(g)@.len(),
        ensures
            t.id == old(g)@.len(),
            final(g)@ == old(g)@.push(relu_node(old(g)@, a.id as int)),
            graph_inv(*final(g)),
    {
        let ghost g0 = g@;
        proof {
            assert(node_wf(g@, a.id as int));
        }
        let out = relu_map(&g.nodes[a.id].data);
        let a_req = g.nodes[a.id].requires_grad;
        let mut td = TensorData::new(out);
        td.requires_grad = a_req;
        if a_req {
            let in_data = g.nodes[a.id].data.duplicate();
            td.set_creator(Operation::Relu { in_data });
            td.add_parent(a);
        }
        proof {
            if a_req {
                assert(td@.parents =~= seq![a.id]);
            } else {
                assert(td@.parents =~= Seq::<usize>::empty());
            }
            assert(td@ =~= relu_node(g0, a.id as int));
            if a_req {
                let op = td@.creator.unwrap();
                let g2 = g0.push(td@);
                assert(crate::tensor::op_parent_shapes(op).len() == td@.parents.len());
                assert(forall|k: int|
                    0 <= k < td@.parents.len() ==> g2[#[trigger] td@.parents[k] as int].shape
                        == crate::tensor::op_parent_shapes(op)[k]);
                assert(op_wf(g2, g0.len() as int, op));
            }
            lemma_push_wf(g0, td@);
        }
        g.nodes.push(td);
        proof {
            assert(g@ =~= g0.push(relu_node(g0, a.id as int)));
        }
        Tensor { id: g.nodes.len() - 1 }
    }
}

/// Applies the rectifier as a free function, as activation layers do.
pub fn relu(g: &mut Graph, a: Tensor) -> (t: Tensor)
    requires
        graph_inv(*old(g)),
        a.id < old(g)@.len(),
    ensures
        t.id == old(g)@.len(),
        final(g)@ == old(g)@.push(relu_node(old(g)@, a.id as int)),
        graph_inv(*final(g)),
{
    let op = ReLU::new();
    op.forward(g, a)
}

} // verus!
