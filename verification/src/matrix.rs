//! Matrix contraction kernels.
//!
//! A matrix product and its two backward contractions, all over flat
//! row-major data: the left operand is any stack of `rr` rows of length
//! `kk`, the right operand is a `kk` by `nn` matrix.

use vstd::prelude::*;
use crate::rat::{Rat, rat_wf, rat_add, rat_mul, rat_zero, add_fits, mul_fits};
use crate::buffer::all_wf;
use crate::TensorError;

verus! {

/// The strided dot product of `cnt` pairs, folded left to right:
/// `sum over j < cnt of x[xi + j*xs] * y[yi + j*ys]`, or `None` as soon
/// as a product or partial sum leaves the representation.
pub open spec fn dot_upto(
    x: Seq<Rat>,
    y: Seq<Rat>,
    xi: int,
    xs: int,
    yi: int,
    ys: int,
    cnt: nat,
) -> Option<Rat>
    decreases cnt,
{
    if cnt == 0 {
        Some(rat_zero())
    } else {
        match dot_upto(x, y, xi, xs, yi, ys, (cnt - 1) as nat) {
            Option::None => Option::None,
            Option::Some(acc) => {
                let xv = x[xi + (cnt - 1) * xs];
                let yv = y[yi + (cnt - 1) * ys];
                if mul_fits(xv, yv) && add_fits(acc, rat_mul(xv, yv)) {
                    Some(rat_add(acc, rat_mul(xv, yv)))
                } else {
                    Option::None
                }
            },
        }
    }
}

/// Once a partial dot product overflows, every longer one overflows.
proof fn lemma_dot_none_mono(
    x: Seq<Rat>,
    y: Seq<Rat>,
    xi: int,
    xs: int,
    yi: int,
    ys: int,
    c1: nat,
    c2: nat,
)
    requires
        dot_upto(x, y, xi, xs, yi, ys, c1) is None,
        c1 <= c2,
    ensures
        dot_upto(x, y, xi, xs, yi, ys, c2) is None,
    decreases c2,
{
    if c1 < c2 {
        lemma_dot_none_mono(x, y, xi, xs, yi, ys, c1, (c2 - 1) as nat);
    }
}

/// Computes one strided dot product.
pub fn dot(x: &Vec<Rat>, y: &Vec<Rat>, xi: usize, xs: usize, yi: usize, ys: usize, cnt: usize) -> (r:
    Option<Rat>)
    requires
        all_wf(x@),
        all_wf(y@),
        cnt > 0 ==> xi + (cnt - 1) * xs < x@.len(),
        cnt > 0 ==> yi + (cnt - 1) * ys < y@.len(),
    ensures
        r == dot_upto(x@, y@, xi as int, xs as int, yi as int, ys as int, cnt as nat),
        r matches Some(c) ==> rat_wf(c),
{
    let xl = x.len();
    let yl = y.len();
    let mut acc = Rat::zero();
    let mut t: usize = 0;
    while t < cnt
        invariant
            all_wf(x@),
            all_wf(y@),
            x@.len() == xl,
            y@.len() == yl,
            cnt > 0 ==> xi + (cnt - 1) * xs < x@.len(),
            cnt > 0 ==> yi + (cnt - 1) * ys < y@.len(),
            0 <= t <= cnt,
            Some(acc) == dot_upto(x@, y@, xi as int, xs as int, yi as int, ys as int, t as nat),
            rat_wf(acc),
        decreases cnt - t,
    {
        proof {
            assert(t * xs <= (cnt - 1) * xs && t * ys <= (cnt - 1) * ys) by (nonlinear_arith)
                requires
                    t <= cnt - 1,
                    xs >= 0,
                    ys >= 0,
            ;
        }
        let xk = xi + t * xs;
        let yk = yi + t * ys;
        let xv = x[xk];
        let yv = y[yk];
        match xv.checked_mul(yv) {
            Some(p) => {
                match acc.checked_add(p) {
                    Some(c) => {
                        acc = c;
                    },
                    None => {
                        proof {
                            lemma_dot_none_mono(
                                x@,
                                y@,
                                xi as int,
                                xs as int,
                                yi as int,
                                ys as int,
                                (t + 1) as nat,
                                cnt as nat,
                            );
                        }
                        return None;
                    },
                }
            },
            None => {
                proof {
                    lemma_dot_none_mono(
                        x@,
                        y@,
                        xi as int,
                        xs as int,
                        yi as int,
                        ys as int,
                        (t + 1) as nat,
                        cnt as nat,
                    );
                }
                return None;
            },
        }
        t = t + 1;
    }
    Some(acc)
}

// --- forward product ------------------------------------------------

/// Element `f` of the product: row `f / nn` of the left operand against
/// column `f % nn` of the right operand.
pub open spec fn mm_elem(ad: Seq<Rat>, bd: Seq<Rat>, kk: int, nn: int, f: int) -> Option<Rat> {
    dot_upto(ad, bd, (f / nn) * kk, 1, f % nn, nn, kk as nat)
}

/// The whole product exists on this machine.
pub open spec fn mm_ok(ad: Seq<Rat>, bd: Seq<Rat>, rr: int, kk: int, nn: int) -> bool {
    &&& rr * nn <= usize::MAX
    &&& forall|f: int| 0 <= f < rr * nn ==> (#[trigger] mm_elem(ad, bd, kk, nn, f)) is Some
}

/// The product data, `rr * nn` elements long.
pub open spec fn mm_data(ad: Seq<Rat>, bd: Seq<Rat>, rr: int, kk: int, nn: int) -> Seq<Rat> {
    Seq::new((rr * nn) as nat, |f: int| mm_elem(ad, bd, kk, nn, f).unwrap())
}

/// Multiplies an `rr` by `kk` stack of rows with a `kk` by `nn` matrix.
pub fn matmul_flat(ad: &Vec<Rat>, bd: &Vec<Rat>, rr: usize, kk: usize, nn: usize) -> (r: Result<
    Vec<Rat>,
    TensorError,
>)
    requires
        all_wf(ad@),
        all_wf(bd@),
        ad@.len() == rr * kk,
        bd@.len() == kk * nn,
    ensures
        r matches Ok(out) ==> {
            &&& mm_ok(ad@, bd@, rr as int, kk as int, nn as int)
            &&& out@ == mm_data(ad@, bd@, rr as int, kk as int, nn as int)
            &&& out@.len() == rr * nn
            &&& all_wf(out@)
        },
        r is Ok <==> mm_ok(ad@, bd@, rr as int, kk as int, nn as int),
        r matches Err(e) ==> e == TensorError::Overflow,
{
    let count = match rr.checked_mul(nn) {
        Some(c) => c,
        None => {
            return Err(TensorError::Overflow);
        },
    };
    let al = ad.len();
    let bl = bd.len();
    let mut out: Vec<Rat> = Vec::new();
    let mut f: usize = 0;
    while f < count
        invariant
            all_wf(ad@),
            all_wf(bd@),
            ad@.len() == rr * kk == al,
            bd@.len() == kk * nn == bl,
            count == rr * nn,
            0 <= f <= count,
            out@.len() == f,
            forall|i: int| 0 <= i < f ==> (#[trigger] mm_elem(ad@, bd@, kk as int, nn as int, i)) is Some,
            forall|i: int|
                0 <= i < f ==> #[trigger] out@[i] == mm_elem(ad@, bd@, kk as int, nn as int, i).unwrap(),
            all_wf(out@),
        decreases count - f,
    {
        proof {
            assert(nn > 0) by (nonlinear_arith)
                requires
                    f < rr * nn,
                    f >= 0,
                    nn >= 0,
            ;
        }
        let row = f / nn;
        let col = f % nn;
        proof {
            assert(row < rr && col < nn) by (nonlinear_arith)
                requires
                    row == f as int / nn as int,
                    col == f as int % nn as int,
                    0 <= f < rr * nn,
                    nn > 0,
            ;
            assert(row * kk + kk <= rr * kk && (kk > 0 ==> col + (kk - 1) * nn < kk * nn))
                by (nonlinear_arith)
                requires
                    row < rr,
                    col < nn,
                    kk >= 0,
                    nn > 0,
            ;
        }
        match dot(ad, bd, row * kk, 1, col, nn, kk) {
            Some(c) => {
                out.push(c);
            },
            None => {
                proof {
                    assert(mm_elem(ad@, bd@, kk as int, nn as int, f as int) is None);
                }
                return Err(TensorError::Overflow);
            },
        }
        f = f + 1;
    }
    proof {
        assert(out@ =~= mm_data(ad@, bd@, rr as int, kk as int, nn as int));
    }
    Ok(out)
}

// --- backward: gradient of the left operand -------------------------

/// Element `f` of the left gradient: row `f / kk` of the output gradient
/// against row `f % kk` of the right operand (the transposed product
/// `gradOut · rightᵀ`).
pub open spec fn mm_grad_left_elem(gd: Seq<Rat>, bd: Seq<Rat>, kk: int, nn: int, f: int) -> Option<
    Rat,
> {
    dot_upto(gd, bd, (f / kk) * nn, 1, (f % kk) * nn, 1, nn as nat)
}

/// The whole left gradient exists on this machine.
pub open spec fn mm_grad_left_ok(gd: Seq<Rat>, bd: Seq<Rat>, rr: int, kk: int, nn: int) -> bool {
    &&& rr * kk <= usize::MAX
    &&& forall|f: int|
        0 <= f < rr * kk ==> (#[trigger] mm_grad_left_elem(gd, bd, kk, nn, f)) is Some
}

/// The left gradient data, `rr * kk` elements long.
pub open spec fn mm_grad_left_data(gd: Seq<Rat>, bd: Seq<Rat>, rr: int, kk: int, nn: int) -> Seq<
    Rat,
> {
    Seq::new((rr * kk) as nat, |f: int| mm_grad_left_elem(gd, bd, kk, nn, f).unwrap())
}

/// Computes `gradOut · rightᵀ` over flat data.
pub fn matmul_grad_left(gd: &Vec<Rat>, bd: &Vec<Rat>, rr: usize, kk: usize, nn: usize) -> (r:
    Result<Vec<Rat>, TensorError>)
    requires
        all_wf(gd@),
        all_wf(bd@),
        gd@.len() == rr * nn,
        bd@.len() == kk * nn,
        rr * kk <= usize::MAX,
    ensures
        r matches Ok(out) ==> {
            &&& mm_grad_left_ok(gd@, bd@, rr as int, kk as int, nn as int)
            &&& out@ == mm_grad_left_data(gd@, bd@, rr as int, kk as int, nn as int)
            &&& out@.len() == rr * kk
            &&& all_wf(out@)
        },
        r is Ok <==> mm_grad_left_ok(gd@, bd@, rr as int, kk as int, nn as int),
        r matches Err(e) ==> e == TensorError::Overflow,
{
    let count = match rr.checked_mul(kk) {
        Some(c) => c,
        None => 0,  // unreachable: the count fits by the precondition
    };
    let gl = gd.len();
    let bl = bd.len();
    let mut out: Vec<Rat> = Vec::new();
    let mut f: usize = 0;
    while f < count
        invariant
            all_wf(gd@),
            all_wf(bd@),
            gd@.len() == rr * nn == gl,
            bd@.len() == kk * nn == bl,
            count == rr * kk,
            0 <= f <= count,
            out@.len() == f,
            forall|i: int|
                0 <= i < f ==> (#[trigger] mm_grad_left_elem(gd@, bd@, kk as int, nn as int, i)) is Some,
            forall|i: int|
                0 <= i < f ==> #[trigger] out@[i] == mm_grad_left_elem(
                    gd@,
                    bd@,
                    kk as int,
                    nn as int,
                    i,
                ).unwrap(),
            all_wf(out@),
        decreases count - f,
    {
        proof {
            assert(kk > 0) by (nonlinear_arith)
                requires
                    f < rr * kk,
                    f >= 0,
                    kk >= 0,
            ;
        }
        let row = f / kk;
        let k = f % kk;
        proof {
            assert(row < rr && k < kk) by (nonlinear_arith)
                requires
                    row == f as int / kk as int,
                    k == f as int % kk as int,
                    0 <= f < rr * kk,
                    kk > 0,
            ;
            assert(row * nn + nn <= rr * nn && k * nn + nn <= kk * nn) by (nonlinear_arith)
                requires
                    row < rr,
                    k < kk,
                    nn >= 0,
            ;
        }
        match dot(gd, bd, row * nn, 1, k * nn, 1, nn) {
            Some(c) => {
                out.push(c);
            },
            None => {
                proof {
                    assert(mm_grad_left_elem(gd@, bd@, kk as int, nn as int, f as int) is None);
                }
                return Err(TensorError::Overflow);
            },
        }
        f = f + 1;
    }
    proof {
        assert(out@ =~= mm_grad_left_data(gd@, bd@, rr as int, kk as int, nn as int));
    }
    Ok(out)
}

// --- backward: gradient of the right operand ------------------------

/// Element `f` of the right gradient: column `f / nn` of the left
/// operand against column `f % nn` of the output gradient, contracted
/// over all rows (the summed product `leftᵀ · gradOut`).
pub open spec fn mm_grad_right_elem(
    ad: Seq<Rat>,
    gd: Seq<Rat>,
    kk: int,
    nn: int,
    rr: int,
    f: int,
) -> Option<Rat> {
    dot_upto(ad, gd, f / nn, kk, f % nn, nn, rr as nat)
}

/// The whole right gradient exists on this machine.
pub open spec fn mm_grad_right_ok(ad: Seq<Rat>, gd: Seq<Rat>, rr: int, kk: int, nn: int) -> bool {
    &&& kk * nn <= usize::MAX
    &&& forall|f: int|
        0 <= f < kk * nn ==> (#[trigger] mm_grad_right_elem(ad, gd, kk, nn, rr, f)) is Some
}

/// The right gradient data, `kk * nn` elements long.
pub open spec fn mm_grad_right_data(ad: Seq<Rat>, gd: Seq<Rat>, rr: int, kk: int, nn: int) -> Seq<
    Rat,
> {
    Seq::new((kk * nn) as nat, |f: int| mm_grad_right_elem(ad, gd, kk, nn, rr, f).unwrap())
}

/// Computes `leftᵀ · gradOut`, summed over every row of the stack, over
/// flat data.
pub fn matmul_grad_right(ad: &Vec<Rat>, gd: &Vec<Rat>, rr: usize, kk: usize, nn: usize) -> (r:
    Result<Vec<Rat>, TensorError>)
    requires
        all_wf(ad@),
        all_wf(gd@),
        ad@.len() == rr * kk,
        gd@.len() == rr * nn,
        kk * nn <= usize::MAX,
    ensures
        r matches Ok(out) ==> {
            &&& mm_grad_right_ok(ad@, gd@, rr as int, kk as int, nn as int)
            &&& out@ == mm_grad_right_data(ad@, gd@, rr as int, kk as int, nn as int)
            &&& out@.len() == kk * nn
            &&& all_wf(out@)
        },
        r is Ok <==> mm_grad_right_ok(ad@, gd@, rr as int, kk as int, nn as int),
        r matches Err(e) ==> e == TensorError::Overflow,
{
    let count = match kk.checked_mul(nn) {
        Some(c) => c,
        None => 0,  // unreachable: the count fits by the precondition
    };
    let mut out: Vec<Rat> = Vec::new();
    let mut f: usize = 0;
    while f < count
        invariant
            all_wf(ad@),
            all_wf(gd@),
            ad@.len() == rr * kk,
            gd@.len() == rr * nn,
            count == kk * nn,
            0 <= f <= count,
            out@.len() == f,
            forall|i: int|
                0 <= i < f ==> (#[trigger] mm_grad_right_elem(
                    ad@,
                    gd@,
                    kk as int,
                    nn as int,
                    rr as int,
                    i,
                )) is Some,
            forall|i: int|
                0 <= i < f ==> #[trigger] out@[i] == mm_grad_right_elem(
                    ad@,
                    gd@,
                    kk as int,
                    nn as int,
                    rr as int,
                    i,
                ).unwrap(),
            all_wf(out@),
        decreases count - f,
    {
        proof {
            assert(nn > 0) by (nonlinear_arith)
                requires
                    f < kk * nn,
                    f >= 0,
                    nn >= 0,
            ;
        }
        let k = f / nn;
        let col = f % nn;
        proof {
            assert(k < kk && col < nn) by (nonlinear_arith)
                requires
                    k == f as int / nn as int,
                    col == f as int % nn as int,
                    0 <= f < kk * nn,
                    nn > 0,
            ;
            assert((rr > 0 ==> k + (rr - 1) * kk < rr * kk) && (rr > 0 ==> col + (rr - 1) * nn < rr
                * nn)) by (nonlinear_arith)
                requires
                    k < kk,
                    col < nn,
                    kk >= 0,
                    nn > 0,
            ;
        }
        match dot(ad, gd, k, kk, col, nn, rr) {
            Some(c) => {
                out.push(c);
            },
            None => {
                proof {
                    assert(mm_grad_right_elem(ad@, gd@, kk as int, nn as int, rr as int, f as int) is None);
                }
                return Err(TensorError::Overflow);
            },
        }
        f = f + 1;
    }
    proof {
        assert(out@ =~= mm_grad_right_data(ad@, gd@, rr as int, kk as int, nn as int));
    }
    Ok(out)
}

} // verus!
