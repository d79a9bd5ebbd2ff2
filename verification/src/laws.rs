//! Laws of the library, stated and proved once over the contracts of
//! the operations and of the backward engine.

use vstd::prelude::*;
use crate::rat::Rat;
use crate::shape::{prod, pad, bc_rank, bc_shape, lemma_src_idx_same};
use crate::kernel::{BinKind, bc_data, bin_v, sum_data, sum_fits};
use crate::tensor::{NodeV, leaf_node, graph_wf, node_wf, op_wf, ones_seq};
use crate::autograd::{
    op_back, backward_spec, seed, init_marks, run_down, step_node, acc_one, acc_list,
    lemma_op_back_shapes,
};

verus! {

/// Reshaping a node to any shape of equal element count and then back
/// reproduces its value exactly.
///
/// `reshape` appends a leaf holding the operand's data under the new
/// shape; this law says the second reshape is always permitted and its
/// node carries the original shape and, element for element, the
/// original data.
pub proof fn lemma_reshape_round_trip(g0: Seq<NodeV>, x: int, s1: Seq<usize>)
    requires
        graph_wf(g0),
        0 <= x < g0.len(),
        prod(s1) == g0[x].data.len(),
    ensures
        ({
            let y = g0.len() as int;
            let g1 = g0.push(leaf_node(s1, g0[x].data));
            let g2 = g1.push(leaf_node(g0[x].shape, g1[y].data));
            // the way back is always permitted …
            &&& prod(g0[x].shape) == g1[y].data.len()
            // … and its node reproduces the original exactly
            &&& g2[g1.len() as int].data == g0[x].data
            &&& g2[g1.len() as int].shape == g0[x].shape
        }),
{
    let y = g0.len() as int;
    let g1 = g0.push(leaf_node(s1, g0[x].data));
    assert(node_wf(g0, x));
    assert(g1[y].data == g0[x].data);
}

/// On operands of one and the same shape, the broadcast binary map is
/// the plain elementwise operation: element `f` of the result combines
/// elements `f` of the operands. (With unequal shapes the operands are
/// first duplicated along their size-1 and missing dimensions.)
pub proof fn lemma_bc_bin_same_shape(k: BinKind, sh: Seq<usize>, ad: Seq<Rat>, bd: Seq<Rat>)
    requires
        ad.len() == prod(sh),
        bd.len() == prod(sh),
    ensures
        bc_shape(sh, sh) == sh,
        bc_data(k, sh, ad, sh, bd).len() == prod(sh),
        forall|f: int|
            0 <= f < prod(sh) ==> bc_data(k, sh, ad, sh, bd)[f] == bin_v(k, ad[f], bd[f]),
{
    let r = bc_rank(sh, sh);
    assert(bc_shape(sh, sh) =~= sh);
    assert(pad(sh, r) =~= sh);
    crate::shape::lemma_prod_nonneg(sh);
    assert forall|f: int| 0 <= f < prod(sh) implies bc_data(k, sh, ad, sh, bd)[f] == bin_v(
        k,
        ad[f],
        bd[f],
    ) by {
        lemma_src_idx_same(sh, f);
    }
}

/// Fan-out accumulation over a diamond.
///
/// In the four-node graph `c = f(a)`, `d = g(a)`, `e = h(c, d)` — the
/// operand `a` a leaf, `e` consuming both intermediate results — a
/// completed backward pass from `e` leaves on `a` exactly the
/// elementwise *sum* of the gradients delivered along the two paths,
/// whatever the three operations and all the stored values are.
pub proof fn lemma_diamond_fan_in(g: Seq<NodeV>)
    requires
        graph_wf(g),
        g.len() == 4,
        g[0].creator is None,
        g[0].grad is None,
        g[1].creator is Some,
        g[1].parents == seq![0usize],
        g[1].grad is None,
        g[2].creator is Some,
        g[2].parents == seq![0usize],
        g[2].grad is None,
        g[3].creator is Some,
        g[3].parents == seq![1usize, 2usize],
        backward_spec(g, 3) is Some,
    ensures
        ({
            let pe = op_back(g[3].creator.unwrap(), ones_seq(g[3].data.len())).unwrap();
            let via_d = op_back(g[2].creator.unwrap(), pe[1].1).unwrap()[0].1;
            let via_c = op_back(g[1].creator.unwrap(), pe[0].1).unwrap()[0].1;
            backward_spec(g, 3).unwrap()[0].grad == Some(sum_data(via_d, via_c))
        }),
{
    let ge = ones_seq(g[3].data.len());
    let g1 = seed(g, 3);
    let m1 = init_marks(4, 3);
    assert(node_wf(g, 3));
    assert(node_wf(g, 2));
    assert(node_wf(g, 1));
    assert(g1[3].grad == Some(ge));
    assert(g1[0] == g[0] && g1[1] == g[1] && g1[2] == g[2]);
    assert(g1[3].creator == g[3].creator && g1[3].parents == g[3].parents);
    let op_e = g[3].creator.unwrap();

    // step 3: e hands its gradients to c and d
    assert(m1[3] && g1[3].creator is Some);
    assert(op_back(op_e, ge) is Some) by {
        if op_back(op_e, ge) is None {
            assert(step_node(g1, m1, 3) is None);
            assert(run_down(g1, m1, 3) is None);
        }
    }
    let pe = op_back(op_e, ge).unwrap();
    lemma_op_back_shapes(op_e, ge);
    assert(op_wf(g, 3, op_e));
    assert(pe.len() == 2);
    let ps_e = g1[3].parents;
    assert(ps_e[0] == 1usize && ps_e[1] == 2usize);
    assert(acc_one(g1, 1, pe[0]) == Some(g1.update(1, NodeV { grad: Some(pe[0].1), ..g1[1] })));
    let g2 = g1.update(1, NodeV { grad: Some(pe[0].1), ..g1[1] });
    let m2 = m1.update(1, true);
    assert(ps_e.skip(1) =~= seq![2usize]);
    assert(pe.skip(1) =~= seq![pe[1]]);
    assert(g2[2].grad is None);
    assert(acc_one(g2, 2, pe.skip(1)[0]) == Some(
        g2.update(2, NodeV { grad: Some(pe[1].1), ..g2[2] }),
    ));
    let g3 = g2.update(2, NodeV { grad: Some(pe[1].1), ..g2[2] });
    let m3 = m2.update(2, true);
    assert(ps_e.skip(1).skip(1) =~= Seq::<usize>::empty());
    assert(pe.skip(1).skip(1) =~= Seq::<(Seq<usize>, Seq<Rat>)>::empty());
    assert(acc_list(g3, m3, ps_e.skip(1).skip(1), pe.skip(1).skip(1)) == Some((g3, m3)));
    assert(acc_list(g2, m2, ps_e.skip(1), pe.skip(1)) == Some((g3, m3)));
    assert(acc_list(g1, m1, ps_e, pe) == Some((g3, m3)));
    assert(step_node(g1, m1, 3) == Some((g3, m3)));
    assert(run_down(g1, m1, 3) == run_down(g3, m3, 2));

    // step 2: d hands its gradient to a
    let op_d = g[2].creator.unwrap();
    assert(g3[2].creator == g[2].creator && g3[2].parents == g[2].parents);
    assert(g3[2].grad == Some(pe[1].1));
    assert(m3[2]);
    assert(op_back(op_d, pe[1].1) is Some) by {
        if op_back(op_d, pe[1].1) is None {
            assert(step_node(g3, m3, 2) is None);
            assert(run_down(g3, m3, 2) is None);
            assert(run_down(g1, m1, 3) is None);
        }
    }
    let pd = op_back(op_d, pe[1].1).unwrap();
    lemma_op_back_shapes(op_d, pe[1].1);
    assert(op_wf(g, 2, op_d));
    assert(pd.len() == 1);
    let ps_d = g3[2].parents;
    assert(ps_d[0] == 0usize);
    assert(g3[0].grad is None);
    assert(acc_one(g3, 0, pd[0]) == Some(g3.update(0, NodeV { grad: Some(pd[0].1), ..g3[0] })));
    let g4 = g3.update(0, NodeV { grad: Some(pd[0].1), ..g3[0] });
    let m4 = m3.update(0, true);
    assert(ps_d.skip(1) =~= Seq::<usize>::empty());
    assert(pd.skip(1) =~= Seq::<(Seq<usize>, Seq<Rat>)>::empty());
    assert(acc_list(g4, m4, ps_d.skip(1), pd.skip(1)) == Some((g4, m4)));
    assert(acc_list(g3, m3, ps_d, pd) == Some((g4, m4)));
    assert(step_node(g3, m3, 2) == Some((g4, m4)));
    assert(run_down(g3, m3, 2) == run_down(g4, m4, 1));

    // step 1: c hands its gradient to a, summed onto d's contribution
    let op_c = g[1].creator.unwrap();
    assert(g4[1].creator == g[1].creator && g4[1].parents == g[1].parents);
    assert(g4[1].grad == Some(pe[0].1));
    assert(m4[1]);
    assert(op_back(op_c, pe[0].1) is Some) by {
        if op_back(op_c, pe[0].1) is None {
            assert(step_node(g4, m4, 1) is None);
            assert(run_down(g4, m4, 1) is None);
            assert(run_down(g1, m1, 3) is None);
        }
    }
    let pc = op_back(op_c, pe[0].1).unwrap();
    lemma_op_back_shapes(op_c, pe[0].1);
    assert(op_wf(g, 1, op_c));
    assert(pc.len() == 1);
    let ps_c = g4[1].parents;
    assert(ps_c[0] == 0usize);
    assert(g4[0].grad == Some(pd[0].1));
    assert(sum_fits(pd[0].1, pc[0].1)) by {
        if !sum_fits(pd[0].1, pc[0].1) {
            assert(acc_one(g4, 0, pc[0]) is None);
            assert(acc_list(g4, m4, ps_c, pc) is None);
            assert(step_node(g4, m4, 1) is None);
            assert(run_down(g4, m4, 1) is None);
            assert(run_down(g1, m1, 3) is None);
        }
    }
    assert(acc_one(g4, 0, pc[0]) == Some(
        g4.update(0, NodeV { grad: Some(sum_data(pd[0].1, pc[0].1)), ..g4[0] }),
    ));
    let g5 = g4.update(0, NodeV { grad: Some(sum_data(pd[0].1, pc[0].1)), ..g4[0] });
    let m5 = m4.update(0, true);
    assert(ps_c.skip(1) =~= Seq::<usize>::empty());
    assert(pc.skip(1) =~= Seq::<(Seq<usize>, Seq<Rat>)>::empty());
    assert(acc_list(g5, m5, ps_c.skip(1), pc.skip(1)) == Some((g5, m5)));
    assert(acc_list(g4, m4, ps_c, pc) == Some((g5, m5)));
    assert(step_node(g4, m4, 1) == Some((g5, m5)));
    assert(run_down(g4, m4, 1) == run_down(g5, m5, 0));

    // step 0: a is a leaf; nothing more changes
    assert(g5[0].creator is None);
    assert(step_node(g5, m5, 0) == Some((g5, m5)));
    assert(run_down(g5, m5, 0) == run_down(g5, m5, -1));
    assert(run_down(g5, m5, -1) == Some(g5));
    assert(backward_spec(g, 3) == Some(g5));
    assert(g5[0].grad == Some(sum_data(pd[0].1, pc[0].1)));
}

} // verus!
