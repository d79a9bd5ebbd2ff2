//! Broadcasting addition.
//!
//! The forward rule adds the operands under trailing-dimension
//! broadcasting; the backward rule (driven by the engine) hands each
//! grad-requiring operand the output gradient summed back to the
//! operand's own shape.

use vstd::prelude::*;
use crate::shape::{bc_ok, bc_shape, broadcast_shape};
use crate::kernel::{BinKind, bc_bin, bc_fits, bc_data};
use crate::tensor::{
    Graph, Tensor, TensorData, Operation, OpV, NodeV, graph_inv, node_wf, op_wf, lemma_push_wf,
};
use crate::TensorError;

verus! {

/// The node an addition of `a` and `b` appends.
pub open spec fn add_node(g0: Seq<NodeV>, a: int, b: int) -> NodeV {
    let na = g0[a];
    let nb = g0[b];
    let rg = na.requires_grad || nb.requires_grad;
    NodeV {
        shape: bc_shape(na.shape, nb.shape),
        data: bc_data(BinKind::Plus, na.shape, na.data, nb.shape, nb.data),
        grad: None,
        requires_grad: rg,
        creator: if rg {
            Some(
                OpV::Add {
                    a_shape: na.shape,
                    b_shape: nb.shape,
                    a_req: na.requires_grad,
                    b_req: nb.requires_grad,
                },
            )
        } else {
            None
        },
        parents: if na.requires_grad && nb.requires_grad {
            seq![a as usize, b as usize]
        } else if na.requires_grad {
            seq![a as usize]
        } else if nb.requires_grad {
            seq![b as usize]
        } else {
            Seq::empty()
        },
    }
}

/// What adding nodes `a` and `b` does to the graph: the appended node,
/// or the first violated condition.
pub open spec fn add_result(g0: Seq<NodeV>, a: int, b: int) -> Result<Seq<NodeV>, TensorError> {
    let na = g0[a];
    let nb = g0[b];
    if !bc_ok(na.shape, nb.shape) {
        Err(TensorError::ShapeError)
    } else if !bc_fits(BinKind::Plus, na.shape, na.data, nb.shape, nb.data) {
        Err(TensorError::Overflow)
    } else {
        Ok(g0.push(add_node(g0, a, b)))
    }
}

/// The broadcasting addition operation.
pub struct AddOp {
    /// The shapes of the two operands.
    pub input_shapes: Vec<Vec<usize>>,
}

impl AddOp {
    /// Records the operand shapes.
    pub fn new(shape1: Vec<usize>, shape2: Vec<usize>) -> (r: AddOp)
        ensures
            r.input_shapes@ == seq![shape1, shape2],
    {
        let mut v: Vec<Vec<usize>> = Vec::new();
        v.push(shape1);
        v.push(shape2);
        proof {
            assert(v@ =~= seq![v@[0], v@[1]]);
        }
        AddOp { input_shapes: v }
    }

    /// The broadcast shape of two compatible operand shapes.
    pub fn get_broadcasted_shape(shape1: &Vec<usize>, shape2: &Vec<usize>) -> (r: Vec<usize>)
        requires
            bc_ok(shape1@, shape2@),
        ensures
            r@ == bc_shape(shape1@, shape2@),
    {
        match broadcast_shape(shape1, shape2) {
            Ok(s) => s,
            Err(_) => {
                proof {
                    assert(false);
                }
                Vec::new()
            },
        }
    }

    /// Appends the node holding `a + b`, linking the operands that take
    /// part in differentiation.
    pub fn forward(&self, g: &mut Graph, a: Tensor, b: Tensor) -> (r: Result<Tensor, TensorError>)
        requires
            graph_inv(*old(g)),
            a.id < old(g)@.len(),
            b.id < old(g)@.len(),
        ensures
            r matches Ok(t) ==> {
                &&& t.id == old(g)@.len()
                &&& add_result(old(g)@, a.id as int, b.id as int) == Ok::<Seq<NodeV>, TensorError>(
                    final(g)@,
                )
                &&& graph_inv(*final(g))
            },
            r matches Err(e) ==> final(g)@ == old(g)@ && add_result(old(g)@, a.id as int, b.id as int)
                == Err::<Seq<NodeV>, TensorError>(e),
    {
        let ghost g0 = g@;
        proof {
            assert(node_wf(g@, a.id as int));
            assert(node_wf(g@, b.id as int));
        }
        let out = match bc_bin(BinKind::Plus, &g.nodes[a.id].data, &g.nodes[b.id].data) {
            Ok(out) => out,
            Err(e) => {
                return Err(e);
            },
        };
        let a_req = g.nodes[a.id].requires_grad;
        let b_req = g.nodes[b.id].requires_grad;
        let rg = a_req || b_req;
        let mut td = TensorData::new(out);
        td.requires_grad = rg;
        if rg {
            let a_shape = g.nodes[a.id].data.duplicate().shape;
            let b_shape = g.nodes[b.id].data.duplicate().shape;
            td.set_creator(Operation::Add { a_shape, b_shape, a_req, b_req });
            if a_req {
                td.add_parent(a);
            }
            if b_req {
                td.add_parent(b);
            }
        }
        proof {
            if a_req && b_req {
                assert(td@.parents =~= seq![a.id, b.id]);
            } else if a_req {
                assert(td@.parents =~= seq![a.id]);
            } else if b_req {
                assert(td@.parents =~= seq![b.id]);
            } else {
                assert(td@.parents =~= Seq::<usize>::empty());
            }
            assert(td@ =~= add_node(g0, a.id as int, b.id as int));
            if rg {
                let op = td@.creator.unwrap();
                let g2 = g0.push(td@);
                assert(crate::tensor::op_parent_shapes(op).len() == td@.parents.len());
                assert(forall|k: int|
                    0 <= k < td@.parents.len() ==> g2[#[trigger] td@.parents[k] as int].shape
                        == crate::tensor::op_parent_shapes(op)[k]);
                assert(op_wf(g2, g0.len() as int, op));
            }
            lemma_push_wf(g0, td@);
        }
        g.nodes.push(td);
        proof {
            assert(g@ =~= g0.push(add_node(g0, a.id as int, b.id as int)));
        }
        Ok(Tensor { id: g.nodes.len() - 1 })
    }
}

impl Tensor {
    /// `self + other`, under trailing-dimension broadcasting.
    pub fn add(self, g: &mut Graph, other: Tensor) -> (r: Result<Tensor, TensorError>)
        requires
            graph_inv(*old(g)),
            self.id < old(g)@.len(),
            other.id < old(g)@.len(),
        ensures
            r matches Ok(t) ==> {
                &&& t.id == old(g)@.len()
                &&& add_result(old(g)@, self.id as int, other.id as int) == Ok::<
                    Seq<NodeV>,
                    TensorError,
                >(final(g)@)
                &&& graph_inv(*final(g))
            },
            r matches Err(e) ==> final(g)@ == old(g)@ && add_result(
                old(g)@,
                self.id as int,
                other.id as int,
            ) == Err::<Seq<NodeV>, TensorError>(e),
    {
        let op = AddOp::new(self.shape(g), other.shape(g));
        op.forward(g, self, other)
    }
}

} // verus!
