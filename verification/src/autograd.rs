//! Reverse-mode differentiation.
//!
//! Seeding the root's gradient with ones, the engine walks the arena
//! from the root downward — decreasing index order is a reverse
//! topological order, since every parent has a smaller index than its
//! child — and, for every reached node with a creator, applies the
//! creator's backward rule and accumulates the resulting gradients into
//! the parents. A node reached over several paths has its contributions
//! summed, never overwritten.

use vstd::prelude::*;
use crate::rat::{Rat, rat_mul, mul_fits};
use crate::buffer::{Buffer, buf_wf, all_wf};
use crate::shape::{prod, pad, bc_rank, bc_shape, lemma_bc_operands_fit, lemma_bc_absorb, clone_dims};
use crate::kernel::{
    BinKind, bc_bin, bc_data, bc_bin_ok, red_upto, reduce_to, relu_mask, relu_mask_data, sum_data,
    sum_fits, add_same,
};
use crate::matrix::{
    matmul_grad_left, matmul_grad_right, mm_grad_left_ok, mm_grad_left_data, mm_grad_right_ok,
    mm_grad_right_data,
};
use crate::tensor::{
    Graph, Tensor, Operation, OpV, NodeV, graph_inv, node_wf, op_wf, op_self_wf, op_out_shape,
    op_parent_shapes, op_arity, lemma_update_wf, ones_seq,
};
use crate::ops::mean::inv_numel;
use crate::TensorError;

verus! {

/// The machine can hold the gradients this record's backward rule
/// produces: each linked operand's gradient has a `usize`-sized count.
pub open spec fn op_back_fits(op: OpV) -> bool {
    match op {
        OpV::Add { a_shape, b_shape, a_req, b_req } => {
            &&& (a_req ==> prod(a_shape) <= usize::MAX)
            &&& (b_req ==> prod(b_shape) <= usize::MAX)
        },
        OpV::Mul { a_shape, b_shape, a_req, b_req, .. } => {
            &&& (a_req ==> prod(a_shape) <= usize::MAX)
            &&& (b_req ==> prod(b_shape) <= usize::MAX)
        },
        OpV::MatMul { rr, kk, nn, a_req, b_req, .. } => {
            &&& (a_req ==> rr * kk <= usize::MAX)
            &&& (b_req ==> kk * nn <= usize::MAX)
        },
        OpV::Mean { in_shape } => prod(in_shape) <= usize::MAX,
        OpV::Relu { .. } => true,
    }
}

/// The output gradient of a broadcast reduced back onto one operand
/// shape: every output position is summed onto the position it read.
pub open spec fn bc_back(
    a_shape: Seq<usize>,
    b_shape: Seq<usize>,
    t: Seq<usize>,
    gd: Seq<Rat>,
) -> Option<Seq<Rat>> {
    let os = bc_shape(a_shape, b_shape);
    let r = bc_rank(a_shape, b_shape);
    red_upto(os, pad(t, r), gd, prod(os) as nat)
}

/// The gradients one operation record hands back for the output
/// gradient `gd`, one per linked operand and in linking order, each
/// with its shape; `None` when any of them leaves the machine
/// representation.
pub open spec fn op_back(op: OpV, gd: Seq<Rat>) -> Option<Seq<(Seq<usize>, Seq<Rat>)>> {
    match op {
        OpV::Add { a_shape, b_shape, a_req, b_req } => {
            let ga = bc_back(a_shape, b_shape, a_shape, gd);
            let gb = bc_back(a_shape, b_shape, b_shape, gd);
            if (a_req ==> ga is Some) && (b_req ==> gb is Some) {
                Some(
                    (if a_req {
                        seq![(a_shape, ga.unwrap())]
                    } else {
                        Seq::empty()
                    }) + (if b_req {
                        seq![(b_shape, gb.unwrap())]
                    } else {
                        Seq::empty()
                    }),
                )
            } else {
                None
            }
        },
        OpV::Mul { a_shape, a_data, b_shape, b_data, a_req, b_req } => {
            let os = bc_shape(a_shape, b_shape);
            let pa_ok = bc_bin_ok(BinKind::Times, os, gd, b_shape, b_data);
            let ga = bc_back(a_shape, b_shape, a_shape, bc_data(BinKind::Times, os, gd, b_shape, b_data));
            let pb_ok = bc_bin_ok(BinKind::Times, os, gd, a_shape, a_data);
            let gb = bc_back(a_shape, b_shape, b_shape, bc_data(BinKind::Times, os, gd, a_shape, a_data));
            if (a_req ==> pa_ok && ga is Some) && (b_req ==> pb_ok && gb is Some) {
                Some(
                    (if a_req {
                        seq![(a_shape, ga.unwrap())]
                    } else {
                        Seq::empty()
                    }) + (if b_req {
                        seq![(b_shape, gb.unwrap())]
                    } else {
                        Seq::empty()
                    }),
                )
            } else {
                None
            }
        },
        OpV::MatMul { a_shape, a_data, b_shape, b_data, rr, kk, nn, a_req, b_req } => {
            let ga_ok = mm_grad_left_ok(gd, b_data, rr as int, kk as int, nn as int);
            let gb_ok = mm_grad_right_ok(a_data, gd, rr as int, kk as int, nn as int);
            if (a_req ==> ga_ok) && (b_req ==> gb_ok) {
                Some(
                    (if a_req {
                        seq![(a_shape, mm_grad_left_data(gd, b_data, rr as int, kk as int, nn as int))]
                    } else {
                        Seq::empty()
                    }) + (if b_req {
                        seq![
                            (b_shape, mm_grad_right_data(a_data, gd, rr as int, kk as int, nn as int)),
                        ]
                    } else {
                        Seq::empty()
                    }),
                )
            } else {
                None
            }
        },
        OpV::Mean { in_shape } => {
            if mul_fits(gd[0], inv_numel(in_shape)) {
                Some(
                    seq![
                        (
                            in_shape,
                            Seq::new(
                                prod(in_shape) as nat,
                                |f: int| rat_mul(gd[0], inv_numel(in_shape)),
                            ),
                        ),
                    ],
                )
            } else {
                None
            }
        },
        OpV::Relu { in_shape, in_data } => Some(seq![(in_shape, relu_mask_data(in_data, gd))]),
    }
}

/// The gradients an operation hands back line up with its linked
/// operands: same count, and pair `k` carries the shape of operand `k`.
pub proof fn lemma_op_back_shapes(op: OpV, gd: Seq<Rat>)
    requires
        op_back(op, gd) is Some,
    ensures
        op_back(op, gd).unwrap().len() == op_arity(op),
        forall|k: int|
            0 <= k < op_arity(op) ==> (#[trigger] op_back(op, gd).unwrap()[k]).0
                == op_parent_shapes(op)[k],
{
    let gs = op_back(op, gd).unwrap();
    match op {
        OpV::Add { a_shape, b_shape, a_req, b_req } => {
            assert forall|k: int| 0 <= k < op_arity(op) implies (#[trigger] gs[k]).0
                == op_parent_shapes(op)[k] by {
                if a_req && k == 0 {
                    assert(gs[0].0 == a_shape);
                    assert(op_parent_shapes(op)[0] == a_shape);
                } else {
                    assert(b_req && k == (if a_req { 1int } else { 0int }));
                    assert(gs[k].0 == b_shape);
                    assert(op_parent_shapes(op)[k] == b_shape);
                }
            }
        },
        OpV::Mul { a_shape, b_shape, a_req, b_req, .. } => {
            assert forall|k: int| 0 <= k < op_arity(op) implies (#[trigger] gs[k]).0
                == op_parent_shapes(op)[k] by {
                if a_req && k == 0 {
                    assert(gs[0].0 == a_shape);
                    assert(op_parent_shapes(op)[0] == a_shape);
                } else {
                    assert(b_req && k == (if a_req { 1int } else { 0int }));
                    assert(gs[k].0 == b_shape);
                    assert(op_parent_shapes(op)[k] == b_shape);
                }
            }
        },
        OpV::MatMul { a_shape, b_shape, a_req, b_req, .. } => {
            assert forall|k: int| 0 <= k < op_arity(op) implies (#[trigger] gs[k]).0
                == op_parent_shapes(op)[k] by {
                if a_req && k == 0 {
                    assert(gs[0].0 == a_shape);
                    assert(op_parent_shapes(op)[0] == a_shape);
                } else {
                    assert(b_req && k == (if a_req { 1int } else { 0int }));
                    assert(gs[k].0 == b_shape);
                    assert(op_parent_shapes(op)[k] == b_shape);
                }
            }
        },
        OpV::Mean { in_shape } => {
            assert(gs[0].0 == in_shape);
            assert(op_parent_shapes(op)[0] == in_shape);
        },
        OpV::Relu { in_shape, .. } => {
            assert(gs[0].0 == in_shape);
            assert(op_parent_shapes(op)[0] == in_shape);
        },
    }
}

impl Operation {
    /// Applies this record's backward rule to the output gradient:
    /// one gradient buffer per linked operand, in linking order.
    ///
    /// Asking for a backward step without a seeded or accumulated
    /// output gradient is a contract violation and reported as
    /// `MissingGradient`.
    pub fn backward(&self, gd: &Option<Buffer>) -> (r: Result<Vec<Buffer>, TensorError>)
        requires
            op_self_wf(self@),
            op_back_fits(self@),
            gd matches Some(b) ==> buf_wf(*b) && b.shape@ == op_out_shape(self@),
        ensures
            gd is None ==> r == Err::<Vec<Buffer>, TensorError>(TensorError::MissingGradient),
            gd matches Some(b) ==> match op_back(self@, b.data@) {
                Some(gs) => (r matches Ok(v) && v@.len() == gs.len() && (forall|k: int|
                    0 <= k < gs.len() ==> (#[trigger] v@[k]).shape@ == gs[k].0 && v@[k].data@
                        == gs[k].1 && buf_wf(v@[k]))),
                None => r == Err::<Vec<Buffer>, TensorError>(TensorError::Overflow),
            },
    {
        let b = match gd {
            Some(b) => b,
            None => {
                return Err(TensorError::MissingGradient);
            },
        };
        match self {
            Operation::Add { a_shape, b_shape, a_req, b_req } => {
                let ghost gs = op_back(self@, b.data@);
                proof {
                    lemma_bc_operands_fit(a_shape@, b_shape@);
                }
                let mut out: Vec<Buffer> = Vec::new();
                if *a_req {
                    match reduce_to(b, a_shape) {
                        Ok(gbuf) => {
                            out.push(gbuf);
                        },
                        Err(_) => {
                            return Err(TensorError::Overflow);
                        },
                    }
                }
                if *b_req {
                    match reduce_to(b, b_shape) {
                        Ok(gbuf) => {
                            out.push(gbuf);
                        },
                        Err(_) => {
                            return Err(TensorError::Overflow);
                        },
                    }
                }
                proof {
                    let gv = gs.unwrap();
                    if *a_req && *b_req {
                        assert(gv.len() == 2);
                        assert(gv[0] == (a_shape@, bc_back(a_shape@, b_shape@, a_shape@, b.data@).unwrap()));
                        assert(gv[1] == (b_shape@, bc_back(a_shape@, b_shape@, b_shape@, b.data@).unwrap()));
                    } else if *a_req {
                        assert(gv.len() == 1);
                        assert(gv[0] == (a_shape@, bc_back(a_shape@, b_shape@, a_shape@, b.data@).unwrap()));
                    } else if *b_req {
                        assert(gv.len() == 1);
                        assert(gv[0] == (b_shape@, bc_back(a_shape@, b_shape@, b_shape@, b.data@).unwrap()));
                    }
                }
                Ok(out)
            },
            Operation::Mul { a_data, b_data, a_req, b_req } => {
                let ghost gs = op_back(self@, b.data@);
                proof {
                    lemma_bc_operands_fit(a_data.shape@, b_data.shape@);
                    lemma_bc_absorb(a_data.shape@, b_data.shape@);
                }
                let mut out: Vec<Buffer> = Vec::new();
                if *a_req {
                    let p = match bc_bin(BinKind::Times, b, b_data) {
                        Ok(p) => p,
                        Err(e) => {
                            proof {
                                assert(e == TensorError::Overflow);
                            }
                            return Err(TensorError::Overflow);
                        },
                    };
                    match reduce_to(&p, &a_data.shape) {
                        Ok(gbuf) => {
                            out.push(gbuf);
                        },
                        Err(_) => {
                            return Err(TensorError::Overflow);
                        },
                    }
                }
                if *b_req {
                    let p = match bc_bin(BinKind::Times, b, a_data) {
                        Ok(p) => p,
                        Err(e) => {
                            proof {
                                assert(e == TensorError::Overflow);
                            }
                            return Err(TensorError::Overflow);
                        },
                    };
                    match reduce_to(&p, &b_data.shape) {
                        Ok(gbuf) => {
                            out.push(gbuf);
                        },
                        Err(_) => {
                            return Err(TensorError::Overflow);
                        },
                    }
                }
                proof {
                    let ash = a_data.shape@;
                    let bsh = b_data.shape@;
                    let os = bc_shape(ash, bsh);
                    let gv = gs.unwrap();
                    if *a_req && *b_req {
                        assert(gv.len() == 2);
                        assert(gv[0] == (
                            ash,
                            bc_back(ash, bsh, ash, bc_data(BinKind::Times, os, b.data@, bsh, b_data.data@)).unwrap(),
                        ));
                        assert(gv[1] == (
                            bsh,
                            bc_back(ash, bsh, bsh, bc_data(BinKind::Times, os, b.data@, ash, a_data.data@)).unwrap(),
                        ));
                    } else if *a_req {
                        assert(gv.len() == 1);
                        assert(gv[0] == (
                            ash,
                            bc_back(ash, bsh, ash, bc_data(BinKind::Times, os, b.data@, bsh, b_data.data@)).unwrap(),
                        ));
                    } else if *b_req {
                        assert(gv.len() == 1);
                        assert(gv[0] == (
                            bsh,
                            bc_back(ash, bsh, bsh, bc_data(BinKind::Times, os, b.data@, ash, a_data.data@)).unwrap(),
                        ));
                    }
                }
                Ok(out)
            },
            Operation::MatMul { a_data, b_data, rr, kk, nn, a_req, b_req } => {
                let ghost gs = op_back(self@, b.data@);
                proof {
                    let ash = a_data.shape@;
                    assert(crate::tensor::mm_out_shape(ash, *nn).drop_last() =~= ash.drop_last());
                    assert(crate::tensor::mm_out_shape(ash, *nn).last() == *nn);
                    assert(prod(b.shape@) == prod(ash.drop_last()) * (*nn as int));
                }
                let mut out: Vec<Buffer> = Vec::new();
                if *a_req {
                    match matmul_grad_left(&b.data, &b_data.data, *rr, *kk, *nn) {
                        Ok(d) => {
                            out.push(Buffer { shape: a_data.duplicate().shape, data: d });
                        },
                        Err(_) => {
                            return Err(TensorError::Overflow);
                        },
                    }
                }
                if *b_req {
                    match matmul_grad_right(&a_data.data, &b.data, *rr, *kk, *nn) {
                        Ok(d) => {
                            out.push(Buffer { shape: b_data.duplicate().shape, data: d });
                        },
                        Err(_) => {
                            return Err(TensorError::Overflow);
                        },
                    }
                }
                proof {
                    let gv = gs.unwrap();
                    let ash = a_data.shape@;
                    let bsh = b_data.shape@;
                    if *a_req && *b_req {
                        assert(gv.len() == 2);
                        assert(gv[0] == (
                            ash,
                            mm_grad_left_data(b.data@, b_data.data@, *rr as int, *kk as int, *nn as int),
                        ));
                        assert(gv[1] == (
                            bsh,
                            mm_grad_right_data(a_data.data@, b.data@, *rr as int, *kk as int, *nn as int),
                        ));
                    } else if *a_req {
                        assert(gv.len() == 1);
                        assert(gv[0] == (
                            ash,
                            mm_grad_left_data(b.data@, b_data.data@, *rr as int, *kk as int, *nn as int),
                        ));
                    } else if *b_req {
                        assert(gv.len() == 1);
                        assert(gv[0] == (
                            bsh,
                            mm_grad_right_data(a_data.data@, b.data@, *rr as int, *kk as int, *nn as int),
                        ));
                    }
                }
                Ok(out)
            },
            Operation::Mean { in_shape } => {
                let numel = match crate::shape::checked_prod(in_shape) {
                    Some(n) => n,
                    None => 0,  // unreachable: the count fits by op_back_fits
                };
                let inv = Rat { num: 1, den: numel as i64 };
                let val = match b.data[0].checked_mul(inv) {
                    Some(v) => v,
                    None => {
                        return Err(TensorError::Overflow);
                    },
                };
                let target = clone_dims(in_shape);
                let gbuf = Buffer::filled(target, val);
                proof {
                    assert(gbuf.data@ =~= Seq::new(
                        prod(in_shape@) as nat,
                        |f: int| rat_mul(b.data@[0], inv_numel(in_shape@)),
                    ));
                }
                let mut out: Vec<Buffer> = Vec::new();
                out.push(gbuf);
                Ok(out)
            },
            Operation::Relu { in_data } => {
                let gbuf = relu_mask(in_data, b);
                let mut out: Vec<Buffer> = Vec::new();
                out.push(gbuf);
                Ok(out)
            },
        }
    }
}

// --- the traversal -------------------------------------------------

/// Accumulates one gradient into one parent: assigned where none was
/// present, summed elementwise otherwise.
pub open spec fn acc_one(nodes: Seq<NodeV>, p: int, pair: (Seq<usize>, Seq<Rat>)) -> Option<
    Seq<NodeV>,
> {
    let n = nodes[p];
    match n.grad {
        Option::None => Some(nodes.update(p, NodeV { grad: Some(pair.1), ..n })),
        Option::Some(og) => {
            if sum_fits(og, pair.1) {
                Some(nodes.update(p, NodeV { grad: Some(sum_data(og, pair.1)), ..n }))
            } else {
                Option::None
            }
        },
    }
}

/// Accumulates a list of gradients into the matching parents, marking
/// each parent reached.
pub open spec fn acc_list(
    nodes: Seq<NodeV>,
    marks: Seq<bool>,
    parents: Seq<usize>,
    grads: Seq<(Seq<usize>, Seq<Rat>)>,
) -> Option<(Seq<NodeV>, Seq<bool>)>
    decreases parents.len(),
{
    if parents.len() == 0 {
        Some((nodes, marks))
    } else {
        match acc_one(nodes, parents[0] as int, grads[0]) {
            Option::None => Option::None,
            Option::Some(ns) => acc_list(
                ns,
                marks.update(parents[0] as int, true),
                parents.skip(1),
                grads.skip(1),
            ),
        }
    }
}

/// One engine step: a reached node with a creator runs its backward
/// rule and spreads the gradients; every other node is left alone.
pub open spec fn step_node(nodes: Seq<NodeV>, marks: Seq<bool>, i: int) -> Option<
    (Seq<NodeV>, Seq<bool>),
> {
    if marks[i] && nodes[i].creator is Some {
        match nodes[i].grad {
            Option::None => Option::None,
            Option::Some(gd) => match op_back(nodes[i].creator.unwrap(), gd) {
                Option::None => Option::None,
                Option::Some(grads) => acc_list(nodes, marks, nodes[i].parents, grads),
            },
        }
    } else {
        Some((nodes, marks))
    }
}

/// Runs the engine over nodes `i`, `i - 1`, …, `0`.
pub open spec fn run_down(nodes: Seq<NodeV>, marks: Seq<bool>, i: int) -> Option<Seq<NodeV>>
    decreases i + 1,
{
    if i < 0 {
        Some(nodes)
    } else {
        match step_node(nodes, marks, i) {
            Option::None => Option::None,
            Option::Some((ns, ms)) => run_down(ns, ms, i - 1),
        }
    }
}

/// The root's gradient seeded with ones.
pub open spec fn seed(nodes: Seq<NodeV>, root: int) -> Seq<NodeV> {
    nodes.update(root, NodeV { grad: Some(ones_seq(nodes[root].data.len())), ..nodes[root] })
}

/// Only the root reached at the start.
pub open spec fn init_marks(n: nat, root: int) -> Seq<bool> {
    Seq::new(n, |j: int| j == root)
}

/// The whole backward pass: seed the root, then run the engine from
/// the root down to the first node.
pub open spec fn backward_spec(nodes: Seq<NodeV>, root: int) -> Option<Seq<NodeV>> {
    run_down(seed(nodes, root), init_marks(nodes.len(), root), root)
}

impl Tensor {
    /// Runs a backward pass from this node: seeds its gradient with
    /// ones and accumulates exact gradients into every reached node
    /// that takes part in differentiation.
    ///
    /// On overflow the pass stops at once; gradients already written
    /// are then partial and the graph should be discarded.
    pub fn backward(&self, g: &mut Graph) -> (r: Result<(), TensorError>)
        requires
            graph_inv(*old(g)),
            self.id < old(g)@.len(),
        ensures
            r is Ok <==> backward_spec(old(g)@, self.id as int) is Some,
            r matches Ok(u) ==> Some(final(g)@) == backward_spec(old(g)@, self.id as int),
            graph_inv(*final(g)),
            r matches Err(e) ==> e == TensorError::Overflow,
    {
        let ghost g0 = g@;
        let root = self.id;
        let n = g.nodes.len();
        // seed the root with ones
        let rootlen = g.nodes[root].data.data.len();
        proof {
            assert(node_wf(g0, root as int));
            assert(prod(g0[root as int].shape) == rootlen <= usize::MAX);
        }
        let ones = Buffer::ones(g.nodes[root].data.duplicate().shape);
        proof {
            assert(ones.data@ =~= ones_seq(g0[root as int].data.len()));
        }
        {
            let node = &mut g.nodes[root];
            node.grad = Some(ones);
        }
        proof {
            let n2 = g.nodes@[root as int]@;
            assert(g@ =~= g0.update(root as int, n2));
            lemma_update_wf(g0, root as int, n2);
            assert(g@ =~= seed(g0, root as int));
        }
        let ghost g1 = seed(g0, root as int);
        // only the root is reached at the start
        let mut marks: Vec<bool> = Vec::new();
        let mut j: usize = 0;
        while j < n
            invariant
                0 <= j <= n,
                marks@.len() == j,
                forall|k: int| 0 <= k < j ==> marks@[k] == false,
            decreases n - j,
        {
            marks.push(false);
            j = j + 1;
        }
        marks.set(root, true);
        proof {
            assert(marks@ =~= init_marks(n as nat, root as int));
        }
        let ghost m1 = init_marks(n as nat, root as int);
        let mut i: usize = root + 1;
        while i > 0
            invariant
                graph_inv(*g),
                g@.len() == n,
                g0 == old(g)@,
                g0.len() == n,
                root == self.id,
                root < n,
                g1 == seed(g0, root as int),
                m1 == init_marks(n as nat, root as int),
                marks@.len() == n,
                0 <= i <= root + 1,
                run_down(g1, m1, root as int) == run_down(g@, marks@, i as int - 1),
                forall|k: int| 0 <= k < n && marks@[k] ==> (#[trigger] g@[k]).grad is Some,
            decreases i,
        {
            let idx = i - 1;
            let ghost nodes_pre = g@;
            let ghost marks_pre = marks@;
            if marks[idx] && g.nodes[idx].creator.is_some() {
                proof {
                    assert(node_wf(g@, idx as int));
                }
                let ghost op = g@[idx as int].creator.unwrap();
                let np = g.nodes[idx].parents.len();
                // gather the machine bounds of the parents' counts
                let mut k: usize = 0;
                while k < np
                    invariant
                        graph_inv(*g),
                        g@ == nodes_pre,
                        idx < n == g@.len(),
                        g@[idx as int].creator == Some(op),
                        node_wf(g@, idx as int),
                        np == g@[idx as int].parents.len(),
                        0 <= k <= np,
                        forall|kk: int|
                            0 <= kk < k ==> prod(#[trigger] op_parent_shapes(op)[kk])
                                <= usize::MAX,
                    decreases np - k,
                {
                    let p = g.nodes[idx].parents[k];
                    proof {
                        assert(op_wf(g@, idx as int, op));
                        assert(p < idx);
                        assert(node_wf(g@, p as int));
                    }
                    let l = g.nodes[p].data.data.len();
                    proof {
                        assert(prod(g@[p as int].shape) == l <= usize::MAX);
                        assert(g@[p as int].shape == op_parent_shapes(op)[k as int]);
                    }
                    k = k + 1;
                }
                proof {
                    assert(op_wf(g@, idx as int, op));
                    assert(op_back_fits(op)) by {
                        match op {
                            OpV::Add { a_shape, b_shape, a_req, b_req } => {
                                if a_req {
                                    assert(op_parent_shapes(op)[0] == a_shape);
                                }
                                if b_req {
                                    assert(op_parent_shapes(op)[if a_req {
                                        1int
                                    } else {
                                        0int
                                    }] == b_shape);
                                }
                            },
                            OpV::Mul { a_shape, b_shape, a_req, b_req, .. } => {
                                if a_req {
                                    assert(op_parent_shapes(op)[0] == a_shape);
                                }
                                if b_req {
                                    assert(op_parent_shapes(op)[if a_req {
                                        1int
                                    } else {
                                        0int
                                    }] == b_shape);
                                }
                            },
                            OpV::MatMul { a_shape, b_shape, rr, kk, nn, a_req, b_req, .. } => {
                                if a_req {
                                    assert(op_parent_shapes(op)[0] == a_shape);
                                    assert(prod(a_shape) == rr * kk);
                                }
                                if b_req {
                                    assert(op_parent_shapes(op)[if a_req {
                                        1int
                                    } else {
                                        0int
                                    }] == b_shape);
                                    assert(prod(b_shape) == kk * nn);
                                }
                            },
                            OpV::Mean { in_shape } => {
                                assert(op_parent_shapes(op)[0] == in_shape);
                            },
                            OpV::Relu { .. } => {},
                        }
                    }
                }
                let grads = match &g.nodes[idx].creator {
                    Some(opref) => opref.backward(&g.nodes[idx].grad),
                    None => {
                        proof {
                            assert(false);
                        }
                        return Err(TensorError::Overflow);
                    },
                };
                let grads = match grads {
                    Ok(v) => v,
                    Err(e) => {
                        proof {
                            assert(g@[idx as int].grad is Some);
                            assert(step_node(nodes_pre, marks_pre, idx as int) is None);
                            assert(run_down(nodes_pre, marks_pre, idx as int) is None);
                            assert(init_marks(g0.len(), root as int) =~= m1);
                            assert(backward_spec(g0, root as int) is None);
                        }
                        return Err(TensorError::Overflow);
                    },
                };
                let ghost gd = g@[idx as int].grad.unwrap();
                let ghost pairs = op_back(op, gd).unwrap();
                proof {
                    lemma_op_back_shapes(op, gd);
                    assert(nodes_pre[idx as int].parents.skip(0) =~= nodes_pre[idx as int].parents);
                    assert(pairs.skip(0) =~= pairs);
                }
                let mut k2: usize = 0;
                while k2 < np
                    invariant
                        graph_inv(*g),
                        g@.len() == n,
                        g0 == old(g)@,
                        g0.len() == n,
                        root == self.id,
                        root < n,
                        g1 == seed(g0, root as int),
                        m1 == init_marks(n as nat, root as int),
                        nodes_pre.len() == n,
                        marks_pre.len() == n,
                        run_down(g1, m1, root as int) == run_down(
                            nodes_pre,
                            marks_pre,
                            idx as int,
                        ),
                        marks@.len() == n,
                        idx < n,
                        g@[idx as int] == nodes_pre[idx as int],
                        node_wf(nodes_pre, idx as int),
                        nodes_pre[idx as int].creator == Some(op),
                        op_wf(nodes_pre, idx as int, op),
                        marks_pre[idx as int],
                        nodes_pre[idx as int].grad == Some(gd),
                        op_back(op, gd) == Some(pairs),
                        np == nodes_pre[idx as int].parents.len(),
                        pairs.len() == np,
                        forall|kk: int|
                            0 <= kk < np ==> (#[trigger] pairs[kk]).0 == op_parent_shapes(op)[kk],
                        forall|j: int| 0 <= j < n ==> (#[trigger] g@[j]).shape == nodes_pre[j].shape,
                        grads@.len() == np,
                        forall|kk: int|
                            0 <= kk < np ==> (#[trigger] grads@[kk]).shape@ == pairs[kk].0
                                && grads@[kk].data@ == pairs[kk].1 && buf_wf(grads@[kk]),
                        0 <= k2 <= np,
                        acc_list(nodes_pre, marks_pre, nodes_pre[idx as int].parents, pairs)
                            == acc_list(
                            g@,
                            marks@,
                            nodes_pre[idx as int].parents.skip(k2 as int),
                            pairs.skip(k2 as int),
                        ),
                        forall|kk: int|
                            0 <= kk < n && marks@[kk] ==> (#[trigger] g@[kk]).grad is Some,
                    decreases np - k2,
                {
                    let ghost parents = nodes_pre[idx as int].parents;
                    let p = g.nodes[idx].parents[k2];
                    proof {
                        assert(parents[k2 as int] == p);
                        assert(p < idx);
                        assert(node_wf(g@, p as int));
                        assert(g@[p as int].shape == op_parent_shapes(op)[k2 as int]);
                        assert(pairs[k2 as int].0 == op_parent_shapes(op)[k2 as int]);
                        assert(parents.skip(k2 as int)[0] == parents[k2 as int]);
                        assert(pairs.skip(k2 as int)[0] == pairs[k2 as int]);
                        assert(parents.skip(k2 as int).skip(1) =~= parents.skip(k2 + 1));
                        assert(pairs.skip(k2 as int).skip(1) =~= pairs.skip(k2 + 1));
                    }
                    let ghost gpre = g@;
                    let ghost mpre = marks@;
                    let nb = match &g.nodes[p].grad {
                        None => grads[k2].duplicate(),
                        Some(og) => {
                            match add_same(og, &grads[k2]) {
                                Ok(bf) => bf,
                                Err(_) => {
                                    proof {
                                        assert(acc_one(gpre, p as int, pairs[k2 as int]) is None);
                                        assert(acc_list(
                                            gpre,
                                            mpre,
                                            parents.skip(k2 as int),
                                            pairs.skip(k2 as int),
                                        ) is None);
                                        assert(step_node(nodes_pre, marks_pre, idx as int) is None);
                                        assert(run_down(nodes_pre, marks_pre, idx as int) is None);
                                        assert(init_marks(g0.len(), root as int) =~= m1);
                                        assert(backward_spec(g0, root as int) is None);
                                    }
                                    return Err(TensorError::Overflow);
                                },
                            }
                        },
                    };
                    {
                        let node = &mut g.nodes[p];
                        node.grad = Some(nb);
                    }
                    marks.set(p, true);
                    proof {
                        let n2 = g.nodes@[p as int]@;
                        assert(g@ =~= gpre.update(p as int, n2));
                        lemma_update_wf(gpre, p as int, n2);
                        assert(Some(g@) == acc_one(gpre, p as int, pairs[k2 as int]));
                        assert(marks@ =~= mpre.update(p as int, true));
                    }
                    k2 = k2 + 1;
                }
                proof {
                    assert(nodes_pre[idx as int].parents.skip(np as int) =~= Seq::<usize>::empty());
                    assert(pairs.skip(np as int) =~= Seq::<(Seq<usize>, Seq<Rat>)>::empty());
                    assert(acc_list(nodes_pre, marks_pre, nodes_pre[idx as int].parents, pairs)
                        == Some((g@, marks@)));
                    assert(step_node(nodes_pre, marks_pre, idx as int) == Some((g@, marks@)));
                }
            } else {
                proof {
                    assert(step_node(nodes_pre, marks_pre, idx as int) == Some(
                        (nodes_pre, marks_pre),
                    ));
                }
            }
            proof {
                assert(run_down(nodes_pre, marks_pre, idx as int) == run_down(
                    g@,
                    marks@,
                    idx as int - 1,
                ));
            }
            i = idx;
        }
        proof {
            assert(run_down(g@, marks@, -1) == Some(g@));
            assert(init_marks(g0.len(), root as int) =~= m1);
            assert(backward_spec(g0, root as int) == Some(g@));
        }
        Ok(())
    }
}

} // verus!
