//! Shapes, flat indexing and NumPy-style trailing-dimension broadcasting.
//!
//! A tensor's elements are stored row-major in one flat vector; everything
//! here translates between flat positions and multi-dimensional
//! coordinates, and decides which element of an operand a broadcast
//! operation reads for each position of its output.

use vstd::prelude::*;

verus! {

/// Number of elements of a shape: the product of its dimensions.
pub open spec fn prod(s: Seq<usize>) -> int
    decreases s.len(),
{
    if s.len() == 0 {
        1
    } else {
        prod(s.drop_last()) * s.last()
    }
}

pub proof fn lemma_prod_nonneg(s: Seq<usize>)
    ensures
        prod(s) >= 0,
    decreases s.len(),
{
    if s.len() > 0 {
        lemma_prod_nonneg(s.drop_last());
        assert(prod(s.drop_last()) * s.last() >= 0) by (nonlinear_arith)
            requires
                prod(s.drop_last()) >= 0,
                s.last() >= 0;
    }
}

/// A positive element count forces every dimension to be positive.
pub proof fn lemma_prod_pos_dims(s: Seq<usize>)
    requires
        prod(s) > 0,
    ensures
        forall|j: int| 0 <= j < s.len() ==> s[j] > 0,
    decreases s.len(),
{
    if s.len() > 0 {
        lemma_prod_nonneg(s.drop_last());
        assert(prod(s.drop_last()) > 0 && s.last() > 0) by (nonlinear_arith)
            requires
                prod(s.drop_last()) * s.last() > 0,
                prod(s.drop_last()) >= 0,
                s.last() >= 0;
        lemma_prod_pos_dims(s.drop_last());
        assert forall|j: int| 0 <= j < s.len() implies s[j] > 0 by {
            if j < s.len() - 1 {
                assert(s[j] == s.drop_last()[j]);
            }
        }
    }
}

/// Positive dimensions force a positive element count.
pub proof fn lemma_pos_dims_prod(s: Seq<usize>)
    requires
        forall|j: int| 0 <= j < s.len() ==> s[j] > 0,
    ensures
        prod(s) > 0,
    decreases s.len(),
{
    if s.len() > 0 {
        assert(forall|j: int| 0 <= j < s.drop_last().len() ==> s.drop_last()[j] == s[j]);
        lemma_pos_dims_prod(s.drop_last());
        assert(prod(s.drop_last()) * s.last() > 0) by (nonlinear_arith)
            requires
                prod(s.drop_last()) > 0,
                s.last() > 0;
    }
}

/// A zero dimension forces a zero element count.
pub proof fn lemma_zero_dim_prod(s: Seq<usize>, j: int)
    requires
        0 <= j < s.len(),
        s[j] == 0,
    ensures
        prod(s) == 0,
    decreases s.len(),
{
    if j == s.len() - 1 {
        assert(prod(s.drop_last()) * 0 == 0) by (nonlinear_arith);
    } else {
        assert(s.drop_last()[j] == s[j]);
        lemma_zero_dim_prod(s.drop_last(), j);
        assert(0 * s.last() == 0) by (nonlinear_arith);
    }
}

/// The element count splits at any cut point.
pub proof fn lemma_prod_split(s: Seq<usize>, i: int)
    requires
        0 <= i <= s.len(),
    ensures
        prod(s) == prod(s.take(i)) * prod(s.skip(i)),
    decreases s.len(),
{
    if i == s.len() {
        assert(s.take(i) =~= s);
        assert(s.skip(i) =~= Seq::<usize>::empty());
        assert(prod(s) * 1 == prod(s)) by (nonlinear_arith);
    } else {
        lemma_prod_split(s.drop_last(), i);
        assert(s.drop_last().take(i) =~= s.take(i));
        assert(s.drop_last().skip(i) =~= s.skip(i).drop_last());
        assert(s.skip(i).last() == s.last());
        assert((prod(s.take(i)) * prod(s.skip(i).drop_last())) * s.last() == prod(s.take(i)) * (
        prod(s.skip(i).drop_last()) * s.last())) by (nonlinear_arith);
    }
}

/// The element count of a concatenation is the product of the counts.
pub proof fn lemma_prod_concat(a: Seq<usize>, b: Seq<usize>)
    ensures
        prod(a + b) == prod(a) * prod(b),
    decreases b.len(),
{
    if b.len() == 0 {
        assert(a + b =~= a);
        assert(prod(a) * 1 == prod(a)) by (nonlinear_arith);
    } else {
        assert((a + b).drop_last() =~= a + b.drop_last());
        assert((a + b).last() == b.last());
        lemma_prod_concat(a, b.drop_last());
        assert((prod(a) * prod(b.drop_last())) * b.last() == prod(a) * (prod(b.drop_last())
            * b.last())) by (nonlinear_arith);
    }
}

/// The shape with every size-1 dimension dropped.
pub open spec fn squeeze_all(s: Seq<usize>) -> Seq<usize>
    decreases s.len(),
{
    if s.len() == 0 {
        Seq::empty()
    } else if s.last() == 1 {
        squeeze_all(s.drop_last())
    } else {
        squeeze_all(s.drop_last()).push(s.last())
    }
}

/// Dropping size-1 dimensions keeps the element count.
pub proof fn lemma_squeeze_all_prod(s: Seq<usize>)
    ensures
        prod(squeeze_all(s)) == prod(s),
    decreases s.len(),
{
    if s.len() > 0 {
        lemma_squeeze_all_prod(s.drop_last());
        if s.last() == 1 {
            assert(prod(s.drop_last()) * 1 == prod(s.drop_last())) by (nonlinear_arith);
        } else {
            assert(squeeze_all(s.drop_last()).push(s.last()).drop_last() =~= squeeze_all(
                s.drop_last(),
            ));
        }
    }
}

/// Dropping one size-1 dimension keeps the element count.
pub proof fn lemma_prod_remove_one(s: Seq<usize>, d: int)
    requires
        0 <= d < s.len(),
        s[d] == 1,
    ensures
        prod(s.remove(d)) == prod(s),
{
    assert(s.remove(d) =~= s.take(d) + s.skip(d + 1));
    assert(s =~= s.take(d) + (seq![s[d]] + s.skip(d + 1)));
    lemma_prod_concat(s.take(d), s.skip(d + 1));
    lemma_prod_concat(s.take(d), seq![s[d]] + s.skip(d + 1));
    lemma_prod_concat(seq![s[d]], s.skip(d + 1));
    assert(seq![s[d]].drop_last() =~= Seq::<usize>::empty());
    assert(seq![s[d]].last() == s[d]);
    assert(prod(seq![s[d]]) == prod(Seq::<usize>::empty()) * s[d]);
    assert(prod(seq![s[d]]) == 1 * s[d]);
    assert(1 * prod(s.skip(d + 1)) == prod(s.skip(d + 1))) by (nonlinear_arith);
}

/// Inserting a size-1 dimension keeps the element count.
pub proof fn lemma_prod_insert_one(s: Seq<usize>, d: int)
    requires
        0 <= d <= s.len(),
    ensures
        prod(s.insert(d, 1usize)) == prod(s),
{
    assert(s.insert(d, 1usize) =~= s.take(d) + (seq![1usize] + s.skip(d)));
    assert(s =~= s.take(d) + s.skip(d));
    lemma_prod_concat(s.take(d), s.skip(d));
    lemma_prod_concat(s.take(d), seq![1usize] + s.skip(d));
    lemma_prod_concat(seq![1usize], s.skip(d));
    assert(seq![1usize].drop_last() =~= Seq::<usize>::empty());
    assert(seq![1usize].last() == 1usize);
    assert(prod(seq![1usize]) == prod(Seq::<usize>::empty()) * 1);
    assert(1 * prod(s.skip(d)) == prod(s.skip(d))) by (nonlinear_arith);
}

/// The flat row-major position of the multi-coordinate `ix` in shape
/// `s`: the inverse of coordinate extraction.
pub open spec fn ravel(s: Seq<usize>, ix: Seq<usize>) -> int
    decreases s.len(),
{
    if s.len() == 0 {
        0
    } else {
        ravel(s.drop_last(), ix.drop_last()) * s.last() + ix.last()
    }
}

/// An in-bounds coordinate ravels to an in-bounds flat position.
pub proof fn lemma_ravel_bound(s: Seq<usize>, ix: Seq<usize>)
    requires
        ix.len() == s.len(),
        forall|j: int| 0 <= j < s.len() ==> ix[j] < s[j],
    ensures
        0 <= ravel(s, ix) < prod(s),
    decreases s.len(),
{
    if s.len() == 0 {
    } else {
        assert(forall|j: int|
            0 <= j < s.drop_last().len() ==> s.drop_last()[j] == s[j] && ix.drop_last()[j]
                == ix[j]);
        lemma_ravel_bound(s.drop_last(), ix.drop_last());
        let a = ravel(s.drop_last(), ix.drop_last());
        assert(a * s.last() + ix.last() < prod(s.drop_last()) * s.last() && a * s.last() + ix.last()
            >= 0) by (nonlinear_arith)
            requires
                0 <= a < prod(s.drop_last()),
                0 <= ix.last() < s.last(),
        ;
    }
}

/// Computes [`ravel`] for one coordinate.
pub fn ravel_index(s: &Vec<usize>, ix: &Vec<usize>) -> (r: usize)
    requires
        ix@.len() == s@.len(),
        forall|j: int| 0 <= j < s@.len() ==> ix@[j] < s@[j],
        prod(s@) <= usize::MAX,
    ensures
        r == ravel(s@, ix@),
        r < prod(s@),
{
    proof {
        lemma_ravel_bound(s@, ix@);
    }
    let n: usize = s.len();
    let mut j: usize = n;
    let mut acc: usize = 0;
    let mut mult: usize = 1;
    proof {
        assert(s@.take(n as int) =~= s@);
        assert(ix@.take(n as int) =~= ix@);
        assert(s@.skip(n as int) =~= Seq::<usize>::empty());
    }
    while j > 0
        invariant
            ix@.len() == s@.len(),
            forall|k: int| 0 <= k < s@.len() ==> ix@[k] < s@[k],
            prod(s@) <= usize::MAX,
            n == s@.len(),
            0 <= j <= n,
            mult == prod(s@.skip(j as int)),
            0 <= acc <= prod(s@.skip(j as int)) - 1,
            ravel(s@, ix@) == ravel(s@.take(j as int), ix@.take(j as int)) * mult + acc,
        decreases j,
    {
        let ghost jj = j as int;
        let d = s[j - 1];
        let c = ix[j - 1];
        proof {
            lemma_prod_split(s@, jj - 1);
            lemma_prod_split(s@.skip(jj - 1), 1);
            assert(s@.skip(jj - 1).take(1) =~= seq![s@[jj - 1]]);
            assert(seq![s@[jj - 1]].drop_last() =~= Seq::<usize>::empty());
            assert(seq![s@[jj - 1]].last() == s@[jj - 1]);
            assert(prod(seq![s@[jj - 1]]) == prod(Seq::<usize>::empty()) * s@[jj - 1]);
            assert(s@.skip(jj - 1).skip(1) =~= s@.skip(jj));
            lemma_prod_nonneg(s@.take(jj - 1));
            lemma_prod_nonneg(s@.skip(jj - 1));
            lemma_prod_nonneg(s@.skip(jj));
            assert(prod(s@.take(jj - 1)) * prod(s@.skip(jj - 1)) == prod(s@)) by {
                lemma_prod_split(s@, jj - 1);
            }
            assert(prod(s@.skip(jj - 1)) <= prod(s@) || prod(s@.take(jj - 1)) == 0)
                by (nonlinear_arith)
                requires
                    prod(s@) == prod(s@.take(jj - 1)) * prod(s@.skip(jj - 1)),
                    prod(s@.take(jj - 1)) >= 0,
                    prod(s@.skip(jj - 1)) >= 0,
            ;
            if prod(s@.take(jj - 1)) == 0 {
                // impossible: every coordinate is strictly below its
                // dimension, so every dimension is positive
                lemma_prod_pos_dims_contra(s@.take(jj - 1));
                let w = choose|w: int|
                    0 <= w < s@.take(jj - 1).len() && #[trigger] s@.take(jj - 1)[w] == 0;
                assert(ix@[w] < s@[w]);
                assert(false);
            }
            assert(s@.take(jj).last() == s@[jj - 1] && ix@.take(jj).last() == ix@[jj - 1]);
            assert(s@.take(jj).drop_last() =~= s@.take(jj - 1));
            assert(ix@.take(jj).drop_last() =~= ix@.take(jj - 1));
            assert(prod(Seq::<usize>::empty()) == 1);
            assert(prod(seq![s@[jj - 1]]) == s@[jj - 1]);
            assert(prod(s@.skip(jj - 1)) == prod(s@.skip(jj - 1).take(1)) * prod(
                s@.skip(jj - 1).skip(1),
            ));
            assert(prod(s@.skip(jj - 1)) == s@[jj - 1] * prod(s@.skip(jj)));
            assert(s@[jj - 1] * prod(s@.skip(jj)) == prod(s@.skip(jj)) * s@[jj - 1])
                by (nonlinear_arith);
            assert(acc + c * mult <= d * mult - 1 && c * mult >= 0) by (nonlinear_arith)
                requires
                    0 <= acc <= mult - 1,
                    0 <= c <= d - 1,
                    1 <= d,
                    1 <= mult,
            ;
            assert((ravel(s@.take(jj - 1), ix@.take(jj - 1)) * d + c) * mult == ravel(
                s@.take(jj - 1),
                ix@.take(jj - 1),
            ) * (d * mult) + c * mult) by (nonlinear_arith);
        }
        acc = acc + c * mult;
        mult = mult * d;
        j = j - 1;
    }
    proof {
        assert(s@.take(0) =~= Seq::<usize>::empty());
        assert(ix@.take(0) =~= Seq::<usize>::empty());
        assert(s@.skip(0) =~= s@);
    }
    acc
}

/// A zero element count comes from some zero dimension.
proof fn lemma_prod_pos_dims_contra(s: Seq<usize>)
    requires
        prod(s) == 0,
    ensures
        exists|j: int| 0 <= j < s.len() && #[trigger] s[j] == 0,
    decreases s.len(),
{
    if s.len() == 0 {
        assert(false);
    } else {
        lemma_prod_nonneg(s.drop_last());
        if s.last() == 0 {
            assert(s[s.len() - 1] == 0);
        } else {
            assert(prod(s.drop_last()) == 0) by (nonlinear_arith)
                requires
                    prod(s.drop_last()) * s.last() == 0,
                    s.last() != 0,
            ;
            lemma_prod_pos_dims_contra(s.drop_last());
            let j = choose|j: int|
                0 <= j < s.drop_last().len() && #[trigger] s.drop_last()[j] == 0;
            assert(s[j] == 0);
        }
    }
}

/// Dimension `j` of `s` once padded on the left with ones to rank `r`.
pub open spec fn pdim(s: Seq<usize>, r: int, j: int) -> int {
    if j < r - s.len() {
        1
    } else {
        s[j - (r - s.len())] as int
    }
}

/// The common rank two broadcast operands are aligned to.
pub open spec fn bc_rank(a: Seq<usize>, b: Seq<usize>) -> int {
    if a.len() >= b.len() {
        a.len() as int
    } else {
        b.len() as int
    }
}

/// Trailing-dimension compatibility: aligned sizes are equal or one is 1.
pub open spec fn bc_ok(a: Seq<usize>, b: Seq<usize>) -> bool {
    forall|j: int|
        0 <= j < bc_rank(a, b) ==> (pdim(a, bc_rank(a, b), j) == pdim(b, bc_rank(a, b), j) || pdim(
            a,
            bc_rank(a, b),
            j,
        ) == 1 || pdim(b, bc_rank(a, b), j) == 1)
}

/// The broadcast result shape: for each aligned pair the non-1 size.
pub open spec fn bc_shape(a: Seq<usize>, b: Seq<usize>) -> Seq<usize> {
    Seq::new(
        bc_rank(a, b) as nat,
        |j: int|
            if pdim(a, bc_rank(a, b), j) == 1 {
                pdim(b, bc_rank(a, b), j) as usize
            } else {
                pdim(a, bc_rank(a, b), j) as usize
            },
    )
}

/// `s` padded on the left with ones to rank `r`.
pub open spec fn pad(s: Seq<usize>, r: int) -> Seq<usize> {
    Seq::new(r as nat, |j: int| pdim(s, r, j) as usize)
}

/// `t` reads element-for-element into `s`: every dimension of `t` is 1 or
/// equals the matching dimension of `s`. Both shapes have the same rank.
pub open spec fn fits_shape(t: Seq<usize>, s: Seq<usize>) -> bool {
    &&& t.len() == s.len()
    &&& forall|j: int| 0 <= j < s.len() ==> (t[j] == 1 || t[j] == s[j])
}

/// Both padded operands of a compatible broadcast fit its result shape.
pub proof fn lemma_bc_operands_fit(a: Seq<usize>, b: Seq<usize>)
    requires
        bc_ok(a, b),
    ensures
        fits_shape(pad(a, bc_rank(a, b)), bc_shape(a, b)),
        fits_shape(pad(b, bc_rank(a, b)), bc_shape(a, b)),
{
}

/// A broadcast result shape absorbs either operand: broadcasting it
/// against the operand again changes nothing.
pub proof fn lemma_bc_absorb(a: Seq<usize>, b: Seq<usize>)
    requires
        bc_ok(a, b),
    ensures
        bc_ok(bc_shape(a, b), a),
        bc_shape(bc_shape(a, b), a) == bc_shape(a, b),
        bc_ok(bc_shape(a, b), b),
        bc_shape(bc_shape(a, b), b) == bc_shape(a, b),
{
    let s = bc_shape(a, b);
    let r = bc_rank(a, b);
    assert(s.len() == r);
    assert(forall|j: int| 0 <= j < r ==> pdim(s, r, j) == s[j]);
    assert forall|j: int| 0 <= j < r implies (pdim(s, r, j) == pdim(a, r, j) || pdim(s, r, j) == 1
        || pdim(a, r, j) == 1) by {
        assert(pdim(a, r, j) == pdim(b, r, j) || pdim(a, r, j) == 1 || pdim(b, r, j) == 1);
    }
    assert forall|j: int| 0 <= j < r implies (pdim(s, r, j) == pdim(b, r, j) || pdim(s, r, j) == 1
        || pdim(b, r, j) == 1) by {
        assert(pdim(a, r, j) == pdim(b, r, j) || pdim(a, r, j) == 1 || pdim(b, r, j) == 1);
    }
    assert(bc_rank(s, a) == r);
    assert(bc_rank(s, b) == r);
    assert(bc_shape(s, a) =~= s);
    assert(bc_shape(s, b) =~= s);
}

/// Flat position, in an operand of shape `t`, of the element a broadcast
/// reads for flat position `f` of the output of shape `s`.
///
/// Working from the last dimension inward, the output coordinate is
/// `f % d`; the operand uses that coordinate where its size matches and
/// coordinate 0 where its size is 1.
pub open spec fn src_idx(s: Seq<usize>, t: Seq<usize>, f: int) -> int
    decreases s.len(),
{
    if s.len() == 0 {
        0
    } else {
        let d = s.last() as int;
        let td = t.last() as int;
        let c = f % d;
        let cc = if td == 1 {
            0
        } else {
            c
        };
        src_idx(s.drop_last(), t.drop_last(), f / d) * td + cc
    }
}

/// The source position is a valid flat position of the operand.
pub proof fn lemma_src_idx_bound(s: Seq<usize>, t: Seq<usize>, f: int)
    requires
        fits_shape(t, s),
        0 <= f < prod(s),
    ensures
        0 <= src_idx(s, t, f) < prod(t),
    decreases s.len(),
{
    lemma_prod_pos_dims(s);
    if s.len() == 0 {
        assert(prod(t) == 1);
    } else {
        let d = s.last() as int;
        let td = t.last() as int;
        let sp = s.drop_last();
        let tp = t.drop_last();
        assert(forall|j: int| 0 <= j < sp.len() ==> sp[j] == s[j] && tp[j] == t[j]);
        lemma_prod_nonneg(sp);
        assert(d > 0);
        assert(f / d < prod(sp)) by (nonlinear_arith)
            requires
                f < prod(sp) * d,
                f >= 0,
                d > 0,
                prod(sp) >= 0;
        assert(f / d >= 0) by (nonlinear_arith)
            requires
                f >= 0,
                d > 0;
        lemma_src_idx_bound(sp, tp, f / d);
        let a = src_idx(sp, tp, f / d);
        let c = f % d;
        assert(0 <= c < d) by (nonlinear_arith)
            requires
                c == f % d,
                d > 0;
        let cc = if td == 1 {
            0
        } else {
            c
        };
        assert(td >= 1 && cc < td);
        assert(a * td + cc < prod(tp) * td) by (nonlinear_arith)
            requires
                a < prod(tp),
                0 <= cc < td,
                0 < td,
        ;
        assert(a * td + cc >= 0) by (nonlinear_arith)
            requires
                a >= 0,
                td >= 1,
                cc >= 0,
        ;
    }
}

/// When the operand has the full shape, the source position is the
/// output position itself.
pub proof fn lemma_src_idx_same(s: Seq<usize>, f: int)
    requires
        0 <= f < prod(s),
    ensures
        src_idx(s, s, f) == f,
    decreases s.len(),
{
    lemma_prod_pos_dims(s);
    if s.len() == 0 {
    } else {
        let d = s.last() as int;
        let sp = s.drop_last();
        assert(forall|j: int| 0 <= j < sp.len() ==> sp[j] == s[j]);
        lemma_prod_nonneg(sp);
        assert(f / d < prod(sp) && f / d >= 0) by (nonlinear_arith)
            requires
                0 <= f,
                f < prod(sp) * d,
                d > 0,
                prod(sp) >= 0;
        lemma_src_idx_same(sp, f / d);
        vstd::arithmetic::div_mod::lemma_fundamental_div_mod(f, d);
        assert(0 <= f % d < d) by (nonlinear_arith)
            requires
                d > 0;
        if d == 1 {
            assert(f % d == 0);
            assert(src_idx(s, s, f) == (f / d) * 1 + 0);
            assert((f / d) * 1 == f / d) by (nonlinear_arith);
            assert(d * (f / d) == f / d) by (nonlinear_arith)
                requires
                    d == 1;
        } else {
            assert(src_idx(s, s, f) == (f / d) * d + f % d);
            assert((f / d) * d == d * (f / d)) by (nonlinear_arith);
        }
    }
}

/// Copies a dimension vector.
pub fn clone_dims(s: &Vec<usize>) -> (r: Vec<usize>)
    ensures
        r@ == s@,
{
    let mut r: Vec<usize> = Vec::new();
    let mut i: usize = 0;
    while i < s.len()
        invariant
            0 <= i <= s@.len(),
            r@ == s@.take(i as int),
        decreases s@.len() - i,
    {
        proof {
            assert(s@.take(i + 1) =~= s@.take(i as int).push(s@[i as int]));
        }
        r.push(s[i]);
        i = i + 1;
    }
    proof {
        assert(s@.take(s@.len() as int) =~= s@);
    }
    r
}

/// Computes the element count, or reports that it exceeds `usize`.
pub fn checked_prod(s: &Vec<usize>) -> (r: Option<usize>)
    ensures
        r matches Some(p) ==> p == prod(s@),
        r is None ==> prod(s@) > usize::MAX,
{
    let ghost sq = s@;
    let n: usize = s.len();
    let mut i: usize = 0;
    // a zero dimension settles the count at once
    while i < n
        invariant
            n == sq.len(),
            s@ == sq,
            0 <= i <= n,
            forall|j: int| 0 <= j < i ==> sq[j] > 0,
        decreases n - i,
    {
        if s[i] == 0 {
            proof {
                lemma_zero_dim_prod(sq, i as int);
            }
            return Some(0);
        }
        i = i + 1;
    }
    let mut acc: usize = 1;
    i = 0;
    while i < n
        invariant
            n == sq.len(),
            s@ == sq,
            0 <= i <= n,
            forall|j: int| 0 <= j < n ==> sq[j] > 0,
            acc == prod(sq.take(i as int)),
            acc >= 1,
        decreases n - i,
    {
        let d = s[i];
        proof {
            assert(sq.take(i + 1).drop_last() =~= sq.take(i as int));
            assert(sq.take(i + 1).last() == sq[i as int]);
        }
        if acc > usize::MAX / d {
            proof {
                vstd::arithmetic::div_mod::lemma_fundamental_div_mod(usize::MAX as int, d as int);
                let m = usize::MAX as int % (d as int);
                assert(acc * d > usize::MAX) by (nonlinear_arith)
                    requires
                        acc >= usize::MAX / d + 1,
                        usize::MAX as int == d * (usize::MAX as int / d as int) + m,
                        0 <= m < d,
                        d >= 1,
                ;
                lemma_prod_split(sq, i + 1);
                assert(forall|j: int|
                    0 <= j < sq.skip(i + 1).len() ==> #[trigger] sq.skip(i + 1)[j] == sq[j + i
                        + 1]);
                lemma_pos_dims_prod(sq.skip(i + 1));
                assert(prod(sq) > usize::MAX) by (nonlinear_arith)
                    requires
                        prod(sq) == prod(sq.take(i + 1)) * prod(sq.skip(i + 1)),
                        prod(sq.take(i + 1)) > usize::MAX,
                        prod(sq.skip(i + 1)) >= 1,
                ;
            }
            return None;
        }
        proof {
            vstd::arithmetic::div_mod::lemma_fundamental_div_mod(usize::MAX as int, d as int);
            let m = usize::MAX as int % (d as int);
            assert(acc * d <= usize::MAX) by (nonlinear_arith)
                requires
                    acc <= usize::MAX as int / d as int,
                    usize::MAX as int == d * (usize::MAX as int / d as int) + m,
                    0 <= m,
                    d >= 1,
            ;
            assert(acc * d >= 1) by (nonlinear_arith)
                requires
                    acc >= 1,
                    d >= 1,
            ;
        }
        acc = acc * d;
        i = i + 1;
    }
    proof {
        assert(sq.take(n as int) =~= sq);
    }
    Some(acc)
}

/// Computes the broadcast shape of two operands, or reports that their
/// trailing-aligned dimensions are incompatible.
pub fn broadcast_shape(a: &Vec<usize>, b: &Vec<usize>) -> (r: Result<Vec<usize>, crate::TensorError>)
    ensures
        r matches Ok(s) ==> bc_ok(a@, b@) && s@ == bc_shape(a@, b@),
        r is Err <==> !bc_ok(a@, b@),
        r matches Err(e) ==> e == crate::TensorError::ShapeError,
{
    let ra = a.len();
    let rb = b.len();
    let r: usize = if ra >= rb {
        ra
    } else {
        rb
    };
    let mut out: Vec<usize> = Vec::new();
    let mut j: usize = 0;
    while j < r
        invariant
            ra == a@.len(),
            rb == b@.len(),
            r as int == bc_rank(a@, b@),
            0 <= j <= r,
            out@.len() == j,
            forall|k: int| 0 <= k < j ==> out@[k] == bc_shape(a@, b@)[k],
            forall|k: int|
                0 <= k < j ==> (pdim(a@, r as int, k) == pdim(b@, r as int, k) || pdim(
                    a@,
                    r as int,
                    k,
                ) == 1 || pdim(b@, r as int, k) == 1),
        decreases r - j,
    {
        let da: usize = if j < r - ra {
            1
        } else {
            a[j - (r - ra)]
        };
        let db: usize = if j < r - rb {
            1
        } else {
            b[j - (r - rb)]
        };
        if da != db && da != 1 && db != 1 {
            proof {
                let rr = r as int;
                let jj = j as int;
                assert(pdim(a@, rr, jj) == da as int);
                assert(pdim(b@, rr, jj) == db as int);
                assert(!bc_ok(a@, b@)) by {
                    if bc_ok(a@, b@) {
                        assert(pdim(a@, bc_rank(a@, b@), jj) == pdim(b@, bc_rank(a@, b@), jj)
                            || pdim(a@, bc_rank(a@, b@), jj) == 1 || pdim(b@, bc_rank(a@, b@), jj)
                            == 1);
                    }
                }
            }
            return Err(crate::TensorError::ShapeError);
        }
        if da == 1 {
            out.push(db);
        } else {
            out.push(da);
        }
        j = j + 1;
    }
    Ok(out)
}

/// With positive target dimensions, a fitting shape has no larger count.
pub proof fn lemma_prod_mono_fits(t: Seq<usize>, s: Seq<usize>)
    requires
        fits_shape(t, s),
        forall|j: int| 0 <= j < s.len() ==> s[j] > 0,
    ensures
        1 <= prod(t) <= prod(s),
    decreases s.len(),
{
    if s.len() == 0 {
    } else {
        assert(forall|j: int|
            0 <= j < s.drop_last().len() ==> s.drop_last()[j] == s[j] && t.drop_last()[j] == t[j]);
        lemma_prod_mono_fits(t.drop_last(), s.drop_last());
        assert(1 <= t.last() <= s.last());
        assert(1 <= prod(t.drop_last()) * t.last() <= prod(s.drop_last()) * s.last())
            by (nonlinear_arith)
            requires
                1 <= prod(t.drop_last()) <= prod(s.drop_last()),
                1 <= t.last() <= s.last(),
        ;
    }
}

/// Computes [`src_idx`] for one output position.
pub fn src_index(s: &Vec<usize>, t: &Vec<usize>, f: usize) -> (r: usize)
    requires
        fits_shape(t@, s@),
        f < prod(s@),
        prod(s@) <= usize::MAX,
    ensures
        r == src_idx(s@, t@, f as int),
        r < prod(t@),
{
    proof {
        lemma_prod_pos_dims(s@);
        lemma_prod_mono_fits(t@, s@);
    }
    let n: usize = s.len();
    let mut j: usize = n;
    let mut rem: usize = f;
    let mut acc: usize = 0;
    let mut mult: usize = 1;
    proof {
        assert(s@.take(n as int) =~= s@);
        assert(t@.take(n as int) =~= t@);
        assert(t@.skip(n as int) =~= Seq::<usize>::empty());
    }
    while j > 0
        invariant
            fits_shape(t@, s@),
            forall|k: int| 0 <= k < s@.len() ==> s@[k] > 0,
            1 <= prod(t@) <= prod(s@),
            prod(s@) <= usize::MAX,
            n == s@.len(),
            0 <= j <= n,
            rem < prod(s@.take(j as int)),
            mult == prod(t@.skip(j as int)),
            0 <= acc <= prod(t@.skip(j as int)) - 1,
            src_idx(s@, t@, f as int) == src_idx(s@.take(j as int), t@.take(j as int), rem as int)
                * mult + acc,
        decreases j,
    {
        let ghost jj = j as int;
        let d = s[j - 1];
        let td = t[j - 1];
        proof {
            lemma_prod_split(t@, jj - 1);
            lemma_prod_split(t@.skip(jj - 1), 1);
            assert(t@.skip(jj - 1).take(1) =~= seq![t@[jj - 1]]);
            assert(seq![t@[jj - 1]].drop_last() =~= Seq::<usize>::empty());
            assert(seq![t@[jj - 1]].last() == t@[jj - 1]);
            assert(prod(seq![t@[jj - 1]]) == prod(Seq::<usize>::empty()) * t@[jj - 1]);
            assert(t@.skip(jj - 1).skip(1) =~= t@.skip(jj));
            // so prod(skip(j-1)) == td * prod(skip(j)), and it stays within bounds
            assert(forall|k: int|
                0 <= k < s@.take(jj - 1).len() ==> s@.take(jj - 1)[k] == s@[k] && t@.take(jj - 1)[k]
                    == t@[k]);
            assert(forall|k: int|
                0 <= k < s@.skip(jj - 1).len() ==> #[trigger] s@.skip(jj - 1)[k] == s@[k + jj - 1]
                    && #[trigger] t@.skip(jj - 1)[k] == t@[k + jj - 1]);
            lemma_prod_mono_fits(t@.take(jj - 1), s@.take(jj - 1));
            lemma_prod_mono_fits(t@.skip(jj - 1), s@.skip(jj - 1));
            assert(prod(t@.take(jj - 1)) >= 1 && prod(t@.skip(jj - 1)) <= prod(t@))
                by (nonlinear_arith)
                requires
                    prod(t@) == prod(t@.take(jj - 1)) * prod(t@.skip(jj - 1)),
                    prod(t@) >= 1,
                    prod(t@.take(jj - 1)) >= 1,
                    prod(t@.skip(jj - 1)) >= 1,
            ;
            assert(prod(t@.skip(jj - 1)) == t@[jj - 1] * prod(t@.skip(jj)));
            assert(t@[jj - 1] * prod(t@.skip(jj)) == prod(t@.skip(jj)) * t@[jj - 1])
                by (nonlinear_arith);
        }
        let c = rem % d;
        let cc: usize = if td == 1 {
            0
        } else {
            c
        };
        proof {
            let sj = s@.take(jj);
            let tj = t@.take(jj);
            assert(sj.last() == s@[jj - 1] && tj.last() == t@[jj - 1]);
            assert(sj.drop_last() =~= s@.take(jj - 1));
            assert(tj.drop_last() =~= t@.take(jj - 1));
            lemma_prod_nonneg(s@.take(jj - 1));
            // the processed coordinate and the shrunk remainder are in range
            assert(0 <= c < d) by (nonlinear_arith)
                requires
                    c == rem as int % (d as int),
                    d > 0,
            ;
            assert(rem / d < prod(s@.take(jj - 1)) && rem / d >= 0) by (nonlinear_arith)
                requires
                    rem < prod(s@.take(jj - 1)) * d,
                    rem >= 0,
                    d > 0,
                    prod(s@.take(jj - 1)) >= 0,
            ;
            // the new accumulator stays under the new suffix product
            assert(acc + cc * mult <= td * mult - 1 && cc * mult >= 0) by (nonlinear_arith)
                requires
                    0 <= acc <= mult - 1,
                    0 <= cc <= td - 1,
                    1 <= td,
                    1 <= mult,
            ;
            // unfold src_idx once and redistribute
            assert(src_idx(sj, tj, rem as int) == src_idx(
                s@.take(jj - 1),
                t@.take(jj - 1),
                rem as int / (d as int),
            ) * td + cc);
            assert((src_idx(s@.take(jj - 1), t@.take(jj - 1), rem as int / (d as int)) * td + cc) * mult
                == src_idx(s@.take(jj - 1), t@.take(jj - 1), rem as int / (d as int)) * (td * mult) + cc
                * mult) by (nonlinear_arith);
        }
        acc = acc + cc * mult;
        mult = mult * td;
        rem = rem / d;
        j = j - 1;
    }
    proof {
        assert(s@.take(0) =~= Seq::<usize>::empty());
        assert(t@.take(0) =~= Seq::<usize>::empty());
        assert(t@.skip(0) =~= t@);
        assert(src_idx(Seq::<usize>::empty(), Seq::<usize>::empty(), rem as int) == 0);
    }
    acc
}

} // verus!
