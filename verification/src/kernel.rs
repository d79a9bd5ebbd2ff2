//! Element-level computation kernels.
//!
//! The broadcastable binary map (used by addition and elementwise
//! multiplication), the same-shape accumulation the backward pass sums
//! gradients with, and the reduction that inverts a broadcast by summing
//! every output position back onto the operand position it was read from.
//!
//! Every kernel has a specification over plain sequences, so the graph
//! engine can speak about whole backward passes without executable types.

use vstd::prelude::*;
use crate::rat::{Rat, rat_wf, rat_add, rat_mul, rat_zero, rat_max0, rat_pos, add_fits, mul_fits};
use crate::buffer::{Buffer, buf_wf, all_wf};
use crate::shape::{
    prod, checked_prod, pdim, pad, bc_rank, bc_ok, bc_shape, fits_shape, src_idx, src_index,
    broadcast_shape, lemma_prod_split, lemma_prod_nonneg, lemma_bc_operands_fit,
};
use crate::TensorError;

verus! {

/// Which elementwise binary operation a kernel call performs.
#[derive(Clone, Copy, Debug, PartialEq, Eq, Structural)]
pub enum BinKind {
    /// Elementwise addition.
    Plus,
    /// Elementwise multiplication.
    Times,
}

/// The operation applied to one pair of elements.
pub open spec fn bin_v(k: BinKind, x: Rat, y: Rat) -> Rat {
    match k {
        BinKind::Plus => rat_add(x, y),
        BinKind::Times => rat_mul(x, y),
    }
}

/// The pairwise result stays within the representation.
pub open spec fn bin_fits(k: BinKind, x: Rat, y: Rat) -> bool {
    match k {
        BinKind::Plus => add_fits(x, y),
        BinKind::Times => mul_fits(x, y),
    }
}

/// A sequence of zeros.
pub open spec fn zero_seq(n: nat) -> Seq<Rat> {
    Seq::new(n, |i: int| rat_zero())
}

/// A shape of only size-1 dimensions holds exactly one element.
pub proof fn lemma_prod_ones(s: Seq<usize>)
    requires
        forall|j: int| 0 <= j < s.len() ==> s[j] == 1,
    ensures
        prod(s) == 1,
    decreases s.len(),
{
    if s.len() > 0 {
        assert(forall|j: int| 0 <= j < s.drop_last().len() ==> s.drop_last()[j] == s[j]);
        lemma_prod_ones(s.drop_last());
    }
}

/// Padding a shape with leading ones keeps its element count.
pub proof fn lemma_prod_pad(s: Seq<usize>, r: int)
    requires
        r >= s.len(),
    ensures
        prod(pad(s, r)) == prod(s),
{
    let p = pad(s, r);
    let cut = r - s.len();
    lemma_prod_split(p, cut);
    assert(forall|j: int| 0 <= j < p.take(cut).len() ==> p.take(cut)[j] == 1);
    lemma_prod_ones(p.take(cut));
    assert(p.skip(cut) =~= s);
}

// --- the broadcastable binary map -----------------------------------

/// Element `f` of the broadcast result of `k` over the two operands.
pub open spec fn bc_elem(
    k: BinKind,
    ash: Seq<usize>,
    ad: Seq<Rat>,
    bsh: Seq<usize>,
    bd: Seq<Rat>,
    f: int,
) -> Rat {
    let os = bc_shape(ash, bsh);
    let r = bc_rank(ash, bsh);
    bin_v(k, ad[src_idx(os, pad(ash, r), f)], bd[src_idx(os, pad(bsh, r), f)])
}

/// Element `f` of the broadcast result stays within the representation.
pub open spec fn bc_elem_fits(
    k: BinKind,
    ash: Seq<usize>,
    ad: Seq<Rat>,
    bsh: Seq<usize>,
    bd: Seq<Rat>,
    f: int,
) -> bool {
    let os = bc_shape(ash, bsh);
    let r = bc_rank(ash, bsh);
    bin_fits(k, ad[src_idx(os, pad(ash, r), f)], bd[src_idx(os, pad(bsh, r), f)])
}

/// The whole broadcast result of `k` over the two operands.
pub open spec fn bc_data(
    k: BinKind,
    ash: Seq<usize>,
    ad: Seq<Rat>,
    bsh: Seq<usize>,
    bd: Seq<Rat>,
) -> Seq<Rat> {
    Seq::new(prod(bc_shape(ash, bsh)) as nat, |f: int| bc_elem(k, ash, ad, bsh, bd, f))
}

/// The whole broadcast result exists on this machine: its element count
/// fits a `usize` and every element stays within the representation.
pub open spec fn bc_fits(
    k: BinKind,
    ash: Seq<usize>,
    ad: Seq<Rat>,
    bsh: Seq<usize>,
    bd: Seq<Rat>,
) -> bool {
    &&& prod(bc_shape(ash, bsh)) <= usize::MAX
    &&& forall|f: int|
        0 <= f < prod(bc_shape(ash, bsh)) ==> #[trigger] bc_elem_fits(k, ash, ad, bsh, bd, f)
}

/// The broadcast binary operation succeeds on these operands.
pub open spec fn bc_bin_ok(
    k: BinKind,
    ash: Seq<usize>,
    ad: Seq<Rat>,
    bsh: Seq<usize>,
    bd: Seq<Rat>,
) -> bool {
    &&& bc_ok(ash, bsh)
    &&& bc_fits(k, ash, ad, bsh, bd)
}

/// Pads a shape with leading ones to rank `r`.
pub fn pad_to(s: &Vec<usize>, r: usize) -> (p: Vec<usize>)
    requires
        r >= s@.len(),
    ensures
        p@ == pad(s@, r as int),
{
    let mut p: Vec<usize> = Vec::new();
    let mut j: usize = 0;
    let len = s.len();
    while j < r
        invariant
            r >= len == s@.len(),
            0 <= j <= r,
            p@.len() == j,
            forall|i: int| 0 <= i < j ==> p@[i] == pdim(s@, r as int, i),
        decreases r - j,
    {
        if j < r - len {
            p.push(1);
        } else {
            p.push(s[j - (r - len)]);
        }
        j = j + 1;
    }
    proof {
        assert(p@ =~= pad(s@, r as int));
    }
    p
}

/// Applies one checked binary operation.
fn bin_exec(k: BinKind, x: Rat, y: Rat) -> (r: Option<Rat>)
    requires
        rat_wf(x),
        rat_wf(y),
    ensures
        r is Some <==> bin_fits(k, x, y),
        r matches Some(c) ==> c == bin_v(k, x, y) && rat_wf(c),
{
    match k {
        BinKind::Plus => x.checked_add(y),
        BinKind::Times => x.checked_mul(y),
    }
}

/// The broadcast binary map over whole buffers.
///
/// Fails with `ShapeError` exactly when the shapes are incompatible, and
/// with `Overflow` exactly when the shapes are compatible but the result
/// does not exist on this machine.
pub fn bc_bin(k: BinKind, a: &Buffer, b: &Buffer) -> (r: Result<Buffer, TensorError>)
    requires
        buf_wf(*a),
        buf_wf(*b),
    ensures
        r matches Ok(out) ==> {
            &&& bc_bin_ok(k, a.shape@, a.data@, b.shape@, b.data@)
            &&& out.shape@ == bc_shape(a.shape@, b.shape@)
            &&& out.data@ == bc_data(k, a.shape@, a.data@, b.shape@, b.data@)
            &&& buf_wf(out)
        },
        r is Ok <==> bc_bin_ok(k, a.shape@, a.data@, b.shape@, b.data@),
        r == Result::<Buffer, TensorError>::Err(TensorError::ShapeError) <==> !bc_ok(
            a.shape@,
            b.shape@,
        ),
        r == Result::<Buffer, TensorError>::Err(TensorError::Overflow) <==> bc_ok(
            a.shape@,
            b.shape@,
        ) && !bc_fits(k, a.shape@, a.data@, b.shape@, b.data@),
{
    let ghost ash = a.shape@;
    let ghost bsh = b.shape@;
    let os = match broadcast_shape(&a.shape, &b.shape) {
        Ok(os) => os,
        Err(e) => {
            return Err(e);
        },
    };
    let n = match checked_prod(&os) {
        Some(n) => n,
        None => {
            return Err(TensorError::Overflow);
        },
    };
    let rank = os.len();
    let pa = pad_to(&a.shape, rank);
    let pb = pad_to(&b.shape, rank);
    proof {
        lemma_bc_operands_fit(ash, bsh);
        lemma_prod_pad(ash, rank as int);
        lemma_prod_pad(bsh, rank as int);
        lemma_prod_nonneg(os@);
    }
    let mut data: Vec<Rat> = Vec::new();
    let mut f: usize = 0;
    while f < n
        invariant
            buf_wf(*a),
            buf_wf(*b),
            ash == a.shape@,
            bsh == b.shape@,
            bc_ok(ash, bsh),
            os@ == bc_shape(ash, bsh),
            rank == os@.len(),
            pa@ == pad(ash, rank as int),
            pb@ == pad(bsh, rank as int),
            n == prod(os@),
            prod(pa@) == prod(ash),
            prod(pb@) == prod(bsh),
            fits_shape(pa@, os@),
            fits_shape(pb@, os@),
            0 <= f <= n,
            data@.len() == f,
            forall|i: int| 0 <= i < f ==> #[trigger] bc_elem_fits(k, ash, a.data@, bsh, b.data@, i),
            forall|i: int|
                0 <= i < f ==> #[trigger] data@[i] == bc_elem(k, ash, a.data@, bsh, b.data@, i),
            all_wf(data@),
        decreases n - f,
    {
        let ia = src_index(&os, &pa, f);
        let ib = src_index(&os, &pb, f);
        let x = a.data[ia];
        let y = b.data[ib];
        match bin_exec(k, x, y) {
            Some(c) => {
                data.push(c);
            },
            None => {
                proof {
                    assert(!bc_elem_fits(k, ash, a.data@, bsh, b.data@, f as int));
                }
                return Err(TensorError::Overflow);
            },
        }
        f = f + 1;
    }
    proof {
        assert(data@ =~= bc_data(k, ash, a.data@, bsh, b.data@));
    }
    Ok(Buffer { shape: os, data })
}

// --- same-shape accumulation ----------------------------------------

/// The elementwise sum of two equally long sequences.
pub open spec fn sum_data(ad: Seq<Rat>, bd: Seq<Rat>) -> Seq<Rat> {
    Seq::new(ad.len(), |f: int| rat_add(ad[f], bd[f]))
}

/// Every elementwise sum stays within the representation.
pub open spec fn sum_fits(ad: Seq<Rat>, bd: Seq<Rat>) -> bool {
    forall|f: int| 0 <= f < ad.len() ==> add_fits(#[trigger] ad[f], bd[f])
}

/// Elementwise addition of two buffers of exactly the same shape, as the
/// backward pass uses to accumulate gradient contributions.
pub fn add_same(a: &Buffer, b: &Buffer) -> (r: Result<Buffer, TensorError>)
    requires
        buf_wf(*a),
        buf_wf(*b),
        a.shape@ == b.shape@,
    ensures
        r matches Ok(out) ==> {
            &&& out.shape@ == a.shape@
            &&& out.data@ == sum_data(a.data@, b.data@)
            &&& buf_wf(out)
        },
        r is Ok <==> sum_fits(a.data@, b.data@),
        r matches Err(e) ==> e == TensorError::Overflow,
{
    let n = a.data.len();
    let mut data: Vec<Rat> = Vec::new();
    let mut f: usize = 0;
    while f < n
        invariant
            buf_wf(*a),
            buf_wf(*b),
            a.shape@ == b.shape@,
            n == a.data@.len(),
            0 <= f <= n,
            data@.len() == f,
            forall|i: int| 0 <= i < f ==> add_fits(#[trigger] a.data@[i], b.data@[i]),
            forall|i: int| 0 <= i < f ==> #[trigger] data@[i] == rat_add(a.data@[i], b.data@[i]),
            all_wf(data@),
        decreases n - f,
    {
        match a.data[f].checked_add(b.data[f]) {
            Some(c) => {
                data.push(c);
            },
            None => {
                return Err(TensorError::Overflow);
            },
        }
        f = f + 1;
    }
    proof {
        assert(data@ =~= sum_data(a.data@, b.data@));
    }
    Ok(Buffer { shape: a.duplicate().shape, data })
}

// --- the broadcast-inverting reduction ------------------------------

/// One accumulation step: adds output element `f` onto the operand
/// position it was broadcast from, or fails on overflow.
pub open spec fn red_step(
    s: Seq<usize>,
    t: Seq<usize>,
    gd: Seq<Rat>,
    acc: Seq<Rat>,
    f: int,
) -> Option<Seq<Rat>> {
    let at = src_idx(s, t, f);
    if add_fits(acc[at], gd[f]) {
        Some(acc.update(at, rat_add(acc[at], gd[f])))
    } else {
        None
    }
}

/// The accumulator after folding the first `f` output positions onto a
/// zeroed operand-shaped buffer.
pub open spec fn red_upto(s: Seq<usize>, t: Seq<usize>, gd: Seq<Rat>, f: nat) -> Option<Seq<Rat>>
    decreases f,
{
    if f == 0 {
        Some(zero_seq(prod(t) as nat))
    } else {
        match red_upto(s, t, gd, (f - 1) as nat) {
            Option::None => Option::None,
            Option::Some(acc) => red_step(s, t, gd, acc, f as int - 1),
        }
    }
}

/// The whole reduction succeeds.
pub open spec fn reduce_ok(s: Seq<usize>, t: Seq<usize>, gd: Seq<Rat>) -> bool {
    red_upto(s, t, gd, prod(s) as nat) is Some
}

/// The reduced data: element `k` holds the sum of every output element
/// whose broadcast source was position `k`.
pub open spec fn reduce_data(s: Seq<usize>, t: Seq<usize>, gd: Seq<Rat>) -> Seq<Rat> {
    red_upto(s, t, gd, prod(s) as nat).unwrap()
}

/// Once a step overflows, every longer fold overflows.
proof fn lemma_red_none_mono(s: Seq<usize>, t: Seq<usize>, gd: Seq<Rat>, f1: nat, f2: nat)
    requires
        red_upto(s, t, gd, f1) is None,
        f1 <= f2,
    ensures
        red_upto(s, t, gd, f2) is None,
    decreases f2,
{
    if f1 < f2 {
        lemma_red_none_mono(s, t, gd, f1, (f2 - 1) as nat);
    }
}

/// Sums a broadcast output back to the unpadded `target` shape.
///
/// `gd` is shaped like the broadcast output; each of its elements is
/// added onto the target position it was originally read from, so the
/// result is the exact adjoint of the broadcast duplication.
pub fn reduce_to(gd: &Buffer, target: &Vec<usize>) -> (r: Result<Buffer, TensorError>)
    requires
        buf_wf(*gd),
        target@.len() <= gd.shape@.len(),
        fits_shape(pad(target@, gd.shape@.len() as int), gd.shape@),
        prod(target@) <= usize::MAX,
    ensures
        r matches Ok(out) ==> {
            &&& out.shape@ == target@
            &&& out.data@ == reduce_data(
                gd.shape@,
                pad(target@, gd.shape@.len() as int),
                gd.data@,
            )
            &&& buf_wf(out)
        },
        r is Ok <==> reduce_ok(gd.shape@, pad(target@, gd.shape@.len() as int), gd.data@),
        r matches Err(e) ==> e == TensorError::Overflow,
{
    let ghost s = gd.shape@;
    let ghost t = pad(target@, gd.shape@.len() as int);
    let rank = gd.shape.len();
    let pt = pad_to(target, rank);
    proof {
        lemma_prod_pad(target@, rank as int);
        lemma_prod_nonneg(target@);
    }
    let nt = match checked_prod(&pt) {
        Some(nt) => nt,
        None => 0,  // unreachable: prod(target) fits usize
    };
    let mut acc: Vec<Rat> = Vec::new();
    let mut i: usize = 0;
    while i < nt
        invariant
            0 <= i <= nt,
            acc@.len() == i,
            forall|j: int| 0 <= j < i ==> #[trigger] acc@[j] == rat_zero(),
        decreases nt - i,
    {
        acc.push(Rat::zero());
        i = i + 1;
    }
    proof {
        assert(acc@ =~= zero_seq(prod(t) as nat));
    }
    let n = gd.data.len();
    let mut f: usize = 0;
    while f < n
        invariant
            buf_wf(*gd),
            s == gd.shape@,
            t == pad(target@, gd.shape@.len() as int),
            pt@ == t,
            fits_shape(t, s),
            prod(t) == prod(target@) <= usize::MAX,
            n == gd.data@.len() == prod(s),
            nt == prod(t),
            0 <= f <= n,
            acc@.len() == nt,
            all_wf(acc@),
            red_upto(s, t, gd.data@, f as nat) == Some(acc@),
        decreases n - f,
    {
        let at = src_index(&gd.shape, &pt, f);
        match acc[at].checked_add(gd.data[f]) {
            Some(c) => {
                acc.set(at, c);
            },
            None => {
                proof {
                    assert(red_upto(s, t, gd.data@, (f + 1) as nat) is None);
                    lemma_red_none_mono(s, t, gd.data@, (f + 1) as nat, prod(s) as nat);
                }
                return Err(TensorError::Overflow);
            },
        }
        f = f + 1;
    }
    let mut shape: Vec<usize> = Vec::new();
    let mut j: usize = 0;
    while j < target.len()
        invariant
            0 <= j <= target@.len(),
            shape@ == target@.take(j as int),
        decreases target@.len() - j,
    {
        proof {
            assert(target@.take(j + 1) =~= target@.take(j as int).push(target@[j as int]));
        }
        shape.push(target[j]);
        j = j + 1;
    }
    proof {
        assert(shape@ =~= target@);
    }
    Ok(Buffer { shape, data: acc })
}

// --- summation, for the mean --------------------------------------

/// The sum of the first `f` elements, folded left to right.
pub open spec fn sum_upto(d: Seq<Rat>, f: nat) -> Option<Rat>
    decreases f,
{
    if f == 0 {
        Some(rat_zero())
    } else {
        match sum_upto(d, (f - 1) as nat) {
            Option::None => Option::None,
            Option::Some(acc) => {
                if add_fits(acc, d[f - 1]) {
                    Some(rat_add(acc, d[f - 1]))
                } else {
                    Option::None
                }
            },
        }
    }
}

/// Once a partial sum overflows, every longer sum overflows.
proof fn lemma_sum_none_mono(d: Seq<Rat>, f1: nat, f2: nat)
    requires
        sum_upto(d, f1) is None,
        f1 <= f2,
    ensures
        sum_upto(d, f2) is None,
    decreases f2,
{
    if f1 < f2 {
        lemma_sum_none_mono(d, f1, (f2 - 1) as nat);
    }
}

/// Sums every element of a vector, left to right.
pub fn sum_vec(d: &Vec<Rat>) -> (r: Option<Rat>)
    requires
        all_wf(d@),
    ensures
        r == sum_upto(d@, d@.len() as nat),
        r matches Some(c) ==> rat_wf(c),
{
    let n = d.len();
    let mut acc = Rat::zero();
    let mut f: usize = 0;
    while f < n
        invariant
            all_wf(d@),
            n == d@.len(),
            0 <= f <= n,
            Some(acc) == sum_upto(d@, f as nat),
            rat_wf(acc),
        decreases n - f,
    {
        match acc.checked_add(d[f]) {
            Some(c) => {
                acc = c;
            },
            None => {
                proof {
                    lemma_sum_none_mono(d@, (f + 1) as nat, n as nat);
                }
                return None;
            },
        }
        f = f + 1;
    }
    Some(acc)
}

// --- the rectifier --------------------------------------------------

/// Every element clamped at zero from below.
pub open spec fn relu_data(d: Seq<Rat>) -> Seq<Rat> {
    Seq::new(d.len(), |f: int| rat_max0(d[f]))
}

/// The gradient passed through where the forward input was positive and
/// cut to zero elsewhere.
pub open spec fn relu_mask_data(ind: Seq<Rat>, g: Seq<Rat>) -> Seq<Rat> {
    Seq::new(
        ind.len(),
        |f: int|
            if rat_pos(ind[f]) {
                g[f]
            } else {
                rat_zero()
            },
    )
}

/// Applies the rectifier to every element.
pub fn relu_map(a: &Buffer) -> (r: Buffer)
    requires
        buf_wf(*a),
    ensures
        r.shape@ == a.shape@,
        r.data@ == relu_data(a.data@),
        buf_wf(r),
{
    let n = a.data.len();
    let mut data: Vec<Rat> = Vec::new();
    let mut f: usize = 0;
    while f < n
        invariant
            buf_wf(*a),
            n == a.data@.len(),
            0 <= f <= n,
            data@.len() == f,
            forall|i: int| 0 <= i < f ==> #[trigger] data@[i] == rat_max0(a.data@[i]),
            all_wf(data@),
        decreases n - f,
    {
        data.push(a.data[f].max0());
        f = f + 1;
    }
    proof {
        assert(data@ =~= relu_data(a.data@));
    }
    Buffer { shape: a.duplicate().shape, data }
}

/// The backward step of the rectifier: masks the output gradient by the
/// sign of the forward input.
pub fn relu_mask(ind: &Buffer, g: &Buffer) -> (r: Buffer)
    requires
        buf_wf(*ind),
        buf_wf(*g),
        ind.shape@ == g.shape@,
    ensures
        r.shape@ == ind.shape@,
        r.data@ == relu_mask_data(ind.data@, g.data@),
        buf_wf(r),
{
    let n = ind.data.len();
    let mut data: Vec<Rat> = Vec::new();
    let mut f: usize = 0;
    while f < n
        invariant
            buf_wf(*ind),
            buf_wf(*g),
            ind.shape@ == g.shape@,
            n == ind.data@.len(),
            0 <= f <= n,
            data@.len() == f,
            forall|i: int|
                0 <= i < f ==> #[trigger] data@[i] == (if rat_pos(ind.data@[i]) {
                    g.data@[i]
                } else {
                    rat_zero()
                }),
            all_wf(data@),
        decreases n - f,
    {
        if ind.data[f].is_pos() {
            data.push(g.data[f]);
        } else {
            data.push(Rat::zero());
        }
        f = f + 1;
    }
    proof {
        assert(data@ =~= relu_mask_data(ind.data@, g.data@));
    }
    Buffer { shape: ind.duplicate().shape, data }
}

} // verus!
