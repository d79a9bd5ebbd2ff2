//! Broadcasting elementwise multiplication.
//!
//! The forward rule multiplies the operands under trailing-dimension
//! broadcasting and captures both operand buffers, because each one's
//! backward gradient is the output gradient times the *other* operand,
//! summed back to the operand's own shape.

use vstd::prelude::*;
use crate::shape::{bc_ok, bc_shape};
use crate::kernel::{BinKind, bc_bin, bc_fits, bc_data};
use crate::tensor::{
    Graph, Tensor, TensorData, Operation, OpV, NodeV, graph_inv, node_wf, op_wf, lemma_push_wf,
};
use crate::TensorError;

verus! {

/// The node a multiplication of `a` and `b` appends.
pub open spec fn mul_node(g0: Seq<NodeV>, a: int, b: int) -> NodeV {
    let na = g0[a];
    let nb = g0[b];
    let rg = na.requires_grad || nb.requires_grad;
    NodeV {
        shape: bc_shape(na.shape, nb.shape),
        data: bc_data(BinKind::Times, na.shape, na.data, nb.shape, nb.data),
        grad: None,
        requires_grad: rg,
        creator: if rg {
            Some(
                OpV::Mul {
                    a_shape: na.shape,
                    a_data: na.data,
                    b_shape: nb.shape,
                    b_data: nb.data,
                    a_req: na.requires_grad,
                    b_req: nb.requires_grad,
                },
            )
        } else {
            None
        },
        parents: if na.requires_grad && nb.requires_grad {
            seq![a as usize, b as usize]
        } else if na.requires_grad {
            seq![a as usize]
        } else if nb.requires_grad {
            seq![b as usize]
        } else {
            Seq::empty()
        },
    }
}

/// What multiplying nodes `a` and `b` does to the graph.
pub open spec fn mul_result(g0: Seq<NodeV>, a: int, b: int) -> Result<Seq<NodeV>, TensorError> {
    let na = g0[a];
    let nb = g0[b];
    if !bc_ok(na.shape, nb.shape) {
        Err(TensorError::ShapeError)
    } else if !bc_fits(BinKind::Times, na.shape, na.data, nb.shape, nb.data) {
        Err(TensorError::Overflow)
    } else {
        Ok(g0.push(mul_node(g0, a, b)))
    }
}

/// The broadcasting elementwise multiplication operation.
pub struct Multiply {
    /// The shapes of the two operands.
    pub input_shapes: Vec<Vec<usize>>,
}

impl Multiply {
    /// Records the operand shapes.
    pub fn new(input_shapes: Vec<Vec<usize>>) -> (r: Multiply)
        ensures
            r.input_shapes == input_shapes,
    {
        Multiply { input_shapes }
    }

    /// Appends the node holding `a * b`, linking the operands that take
    /// part in differentiation and capturing both operand buffers.
    pub fn forward(&self, g: &mut Graph, a: Tensor, b: Tensor) -> (r: Result<Tensor, TensorError>)
        requires
            graph_inv(*old(g)),
            a.id < old(g)@.len(),
            b.id < old(g)@.len(),
        ensures
            r matches Ok(t) ==> {
                &&& t.id == old(g)@.len()
                &&& mul_result(old(g)@, a.id as int, b.id as int) == Ok::<Seq<NodeV>, TensorError>(
                    final(g)@,
                )
                &&& graph_inv(*final(g))
            },
            r matches Err(e) ==> final(g)@ == old(g)@ && mul_result(old(g)@, a.id as int, b.id as int)
                == Err::<Seq<NodeV>, TensorError>(e),
    {
        let ghost g0 = g@;
        proof {
            assert(node_wf(g@, a.id as int));
            assert(node_wf(g@, b.id as int));
        }
        let out = match bc_bin(BinKind::Times, &g.nodes[a.id].data, &g.nodes[b.id].data) {
            Ok(out) => out,
            Err(e) => {
                return Err(e);
            },
        };
        let a_req = g.nodes[a.id].requires_grad;
        let b_req = g.nodes[b.id].requires_grad;
        let rg = a_req || b_req;
        let mut td = TensorData::new(out);
        td.requires_grad = rg;
        if rg {
            let a_data = g.nodes[a.id].data.duplicate();
            let b_data = g.nodes[b.id].data.duplicate();
            td.set_creator(Operation::Mul { a_data, b_data, a_req, b_req });
            if a_req {
                td.add_parent(a);
            }
            if b_req {
                td.add_parent(b);
            }
        }
        proof {
            if a_req && b_req {
                assert(td@.parents =~= seq![a.id, b.id]);
            } else if a_req {
                assert(td@.parents =~= seq![a.id]);
            } else if b_req {
                assert(td@.parents =~= seq![b.id]);
            } else {
                assert(td@.parents =~= Seq::<usize>::empty());
            }
            assert(td@ =~= mul_node(g0, a.id as int, b.id as int));
            if rg {
                let op = td@.creator.unwrap();
                let g2 = g0.push(td@);
                assert(crate::tensor::op_parent_shapes(op).len() == td@.parents.len());
                assert(forall|k: int|
                    0 <= k < td@.parents.len() ==> g2[#[trigger] td@.parents[k] as int].shape
                        == crate::tensor::op_parent_shapes(op)[k]);
                assert(op_wf(g2, g0.len() as int, op));
            }
            lemma_push_wf(g0, td@);
        }
        g.nodes.push(td);
        proof {
            assert(g@ =~= g0.push(mul_node(g0, a.id as int, b.id as int)));
        }
        Ok(Tensor { id: g.nodes.len() - 1 })
    }
}

impl Tensor {
    /// `self * other`, elementwise under trailing-dimension
    /// broadcasting.
    pub fn mul(self, g: &mut Graph, other: Tensor) -> (r: Result<Tensor, TensorError>)
        requires
            graph_inv(*old(g)),
            self.id < old(g)@.len(),
            other.id < old(g)@.len(),
        ensures
            r matches Ok(t) ==> {
                &&& t.id == old(g)@.len()
                &&& mul_result(old(g)@, self.id as int, other.id as int) == Ok::<
                    Seq<NodeV>,
                    TensorError,
                >(final(g)@)
                &&& graph_inv(*final(g))
            },
            r matches Err(e) ==> final(g)@ == old(g)@ && mul_result(
                old(g)@,
                self.id as int,
                other.id as int,
            ) == Err::<Seq<NodeV>, TensorError>(e),
    {
        let mut shapes: Vec<Vec<usize>> = Vec::new();
        shapes.push(self.shape(g));
        shapes.push(other.shape(g));
        let op = Multiply::new(shapes);
        op.forward(g, self, other)
    }
}

} // verus!
