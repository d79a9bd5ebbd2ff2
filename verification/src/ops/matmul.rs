//! Matrix multiplication.
//!
//! The left operand is a matrix `[rows, kk]` or a batched stack
//! `[batch, channel, kk]`; the right operand is always a `[kk, nn]`
//! matrix shared across the stack. The backward rule computes
//! `gradLeft = gradOut · rightᵀ` row by row and
//! `gradRight = leftᵀ · gradOut` summed over the whole stack.

use vstd::prelude::*;
use crate::buffer::{Buffer, buf_wf};
use crate::shape::prod;
use crate::matrix::{matmul_flat, mm_ok, mm_data};
use crate::tensor::{
    Graph, Tensor, TensorData, Operation, OpV, NodeV, graph_inv, node_wf, op_wf, lemma_push_wf,
    mm_out_shape,
};
use crate::TensorError;

verus! {

/// The node a matrix multiplication of `a` and `b` appends.
pub open spec fn matmul_node(g0: Seq<NodeV>, a: int, b: int) -> NodeV {
    let na = g0[a];
    let nb = g0[b];
    let rg = na.requires_grad || nb.requires_grad;
    let rr = prod(na.shape.drop_last());
    let kk = na.shape.last() as int;
    let nn = nb.shape[1] as int;
    NodeV {
        shape: mm_out_shape(na.shape, nb.shape[1]),
        data: mm_data(na.data, nb.data, rr, kk, nn),
        grad: None,
        requires_grad: rg,
        creator: if rg {
            Some(
                OpV::MatMul {
                    a_shape: na.shape,
                    a_data: na.data,
                    b_shape: nb.shape,
                    b_data: nb.data,
                    rr: rr as usize,
                    kk: kk as usize,
                    nn: nn as usize,
                    a_req: na.requires_grad,
                    b_req: nb.requires_grad,
                },
            )
        } else {
            None
        },
        parents: if na.requires_grad && nb.requires_grad {
            seq![a as usize, b as usize]
        } else if na.requires_grad {
            seq![a as usize]
        } else if nb.requires_grad {
            seq![b as usize]
        } else {
            Seq::empty()
        },
    }
}

/// What multiplying nodes `a` and `b` as matrices does to the graph.
pub open spec fn matmul_result(g0: Seq<NodeV>, a: int, b: int) -> Result<Seq<NodeV>, TensorError> {
    let na = g0[a];
    let nb = g0[b];
    if !(na.shape.len() == 2 || na.shape.len() == 3) || nb.shape.len() != 2 {
        Err(TensorError::UnsupportedRank)
    } else if na.shape.last() != nb.shape[0] {
        Err(TensorError::ShapeError)
    } else if prod(na.shape.drop_last()) > usize::MAX || !mm_ok(
        na.data,
        nb.data,
        prod(na.shape.drop_last()),
        na.shape.last() as int,
        nb.shape[1] as int,
    ) {
        Err(TensorError::Overflow)
    } else {
        Ok(g0.push(matmul_node(g0, a, b)))
    }
}

/// The matrix multiplication operation.
pub struct MatMul {
    /// The shapes of the two operands, recorded by the forward rule.
    pub input_shapes: Vec<Vec<usize>>,
}

impl MatMul {
    /// A fresh record; the forward rule fills in the shapes.
    pub fn new() -> (r: MatMul)
        ensures
            r.input_shapes@.len() == 0,
    {
        MatMul { input_shapes: Vec::new() }
    }

    /// Appends the node holding the matrix product of `a` and `b`,
    /// linking the operands that take part in differentiation and
    /// capturing both operand buffers.
    pub fn forward(&self, g: &mut Graph, a: Tensor, b: Tensor) -> (r: Result<Tensor, TensorError>)
        requires
            graph_inv(*old(g)),
            a.id < old(g)@.len(),
            b.id < old(g)@.len(),
        ensures
            r matches Ok(t) ==> {
                &&& t.id == old(g)@.len()
                &&& matmul_result(old(g)@, a.id as int, b.id as int) == Ok::<
                    Seq<NodeV>,
                    TensorError,
                >(final(g)@)
                &&& graph_inv(*final(g))
            },
            r matches Err(e) ==> final(g)@ == old(g)@ && matmul_result(
                old(g)@,
                a.id as int,
                b.id as int,
            ) == Err::<Seq<NodeV>, TensorError>(e),
    {
        let ghost g0 = g@;
        proof {
            assert(node_wf(g@, a.id as int));
            assert(node_wf(g@, b.id as int));
        }
        let ghost ash = g0[a.id as int].shape;
        let ghost bsh = g0[b.id as int].shape;
        let ar = g.nodes[a.id].data.rank();
        let br = g.nodes[b.id].data.rank();
        if !(ar == 2 || ar == 3) || br != 2 {
            return Err(TensorError::UnsupportedRank);
        }
        let kk = g.nodes[a.id].data.shape[ar - 1];
        if g.nodes[b.id].data.shape[0] != kk {
            return Err(TensorError::ShapeError);
        }
        let nn = g.nodes[b.id].data.shape[1];
        let rr: usize;
        if ar == 2 {
            rr = g.nodes[a.id].data.shape[0];
            proof {
                assert(ash.drop_last() =~= seq![ash[0]]);
                assert(seq![ash[0]].drop_last() =~= Seq::<usize>::empty());
                assert(seq![ash[0]].last() == ash[0]);
                assert(prod(ash.drop_last()) == prod(Seq::<usize>::empty()) * ash[0]);
            }
        } else {
            let s0 = g.nodes[a.id].data.shape[0];
            let s1 = g.nodes[a.id].data.shape[1];
            proof {
                assert(ash.drop_last() =~= seq![ash[0], ash[1]]);
                assert(seq![ash[0], ash[1]].drop_last() =~= seq![ash[0]]);
                assert(seq![ash[0], ash[1]].last() == ash[1]);
                assert(seq![ash[0]].drop_last() =~= Seq::<usize>::empty());
                assert(seq![ash[0]].last() == ash[0]);
                assert(prod(seq![ash[0]]) == prod(Seq::<usize>::empty()) * ash[0]);
                assert(prod(ash.drop_last()) == (ash[0] * ash[1]));
            }
            rr = match s0.checked_mul(s1) {
                Some(p) => p,
                None => {
                    return Err(TensorError::Overflow);
                },
            };
        }
        proof {
            assert(rr as int == prod(ash.drop_last()));
            assert(prod(ash) == prod(ash.drop_last()) * ash.last());
            assert(bsh.drop_last() =~= seq![bsh[0]]);
            assert(seq![bsh[0]].drop_last() =~= Seq::<usize>::empty());
            assert(seq![bsh[0]].last() == bsh[0]);
            assert(prod(seq![bsh[0]]) == prod(Seq::<usize>::empty()) * bsh[0]);
            assert(prod(bsh) == prod(bsh.drop_last()) * bsh.last());
        }
        let out_data = match matmul_flat(
            &g.nodes[a.id].data.data,
            &g.nodes[b.id].data.data,
            rr,
            kk,
            nn,
        ) {
            Ok(d) => d,
            Err(e) => {
                return Err(TensorError::Overflow);
            },
        };
        let mut out_shape = g.nodes[a.id].data.duplicate().shape;
        out_shape.set(ar - 1, nn);
        proof {
            assert(out_shape@ =~= mm_out_shape(ash, nn));
            assert(out_shape@.drop_last() =~= ash.drop_last());
            assert(out_shape@.last() == nn);
            assert(prod(out_shape@) == prod(ash.drop_last()) * nn);
        }
        let a_req = g.nodes[a.id].requires_grad;
        let b_req = g.nodes[b.id].requires_grad;
        let rg = a_req || b_req;
        let mut td = TensorData::new(Buffer { shape: out_shape, data: out_data });
        td.requires_grad = rg;
        if rg {
            let a_data = g.nodes[a.id].data.duplicate();
            let b_data = g.nodes[b.id].data.duplicate();
            td.set_creator(Operation::MatMul { a_data, b_data, rr, kk, nn, a_req, b_req });
            if a_req {
                td.add_parent(a);
            }
            if b_req {
                td.add_parent(b);
            }
        }
        proof {
            if a_req && b_req {
                assert(td@.parents =~= seq![a.id, b.id]);
            } else if a_req {
                assert(td@.parents =~= seq![a.id]);
            } else if b_req {
                assert(td@.parents =~= seq![b.id]);
            } else {
                assert(td@.parents =~= Seq::<usize>::empty());
            }
            assert(td@ =~= matmul_node(g0, a.id as int, b.id as int));
            if rg {
                let op = td@.creator.unwrap();
                let g2 = g0.push(td@);
                assert(crate::tensor::op_parent_shapes(op).len() == td@.parents.len());
                assert(forall|k: int|
                    0 <= k < td@.parents.len() ==> g2[#[trigger] td@.parents[k] as int].shape
                        == crate::tensor::op_parent_shapes(op)[k]);
                assert(op_wf(g2, g0.len() as int, op));
            }
            lemma_push_wf(g0, td@);
        }
        g.nodes.push(td);
        proof {
            assert(g@ =~= g0.push(matmul_node(g0, a.id as int, b.id as int)));
        }
        Ok(Tensor { id: g.nodes.len() - 1 })
    }
}

/// Multiplies two nodes as matrices, as a free function.
pub fn matmul(g: &mut Graph, a: Tensor, b: Tensor) -> (r: Result<Tensor, TensorError>)
    requires
        graph_inv(*old(g)),
        a.id < old(g)@.len(),
        b.id < old(g)@.len(),
    ensures
        r matches Ok(t) ==> {
            &&& t.id == old(g)@.len()
            &&& matmul_result(old(g)@, a.id as int, b.id as int) == Ok::<Seq<NodeV>, TensorError>(
                final(g)@,
            )
            &&& graph_inv(*final(g))
        },
        r matches Err(e) ==> final(g)@ == old(g)@ && matmul_result(old(g)@, a.id as int, b.id as int)
            == Err::<Seq<NodeV>, TensorError>(e),
{
    let op = MatMul::new();
    op.forward(g, a, b)
}

} // verus!
