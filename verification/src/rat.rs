//! Exact rational scalars.
//!
//! Tensor elements are rationals `num / den` held in machine integers, so
//! every arithmetic step is either exact or reported as [`Overflow`]
//! (through the checked operations); nothing is ever rounded.
//!
//! [`Overflow`]: crate::TensorError::Overflow

use vstd::prelude::*;

verus! {

/// Largest magnitude a numerator or denominator may hold.
///
/// Numerators live in `[-RAT_LIMIT, RAT_LIMIT]` (the most negative `i64`
/// is excluded so that negation and `i128` products never overflow) and
/// denominators in `[1, RAT_LIMIT]`.
pub const RAT_LIMIT: i64 = i64::MAX;

/// An exact rational number `num / den`.
///
/// Representations are not reduced: `2/6` and `1/3` are different values
/// of this type that stand for the same number; [`Rat::eqv`] compares the
/// numbers themselves.
#[derive(Clone, Copy, Debug)]
pub struct Rat {
    /// Numerator; carries the sign.
    pub num: i64,
    /// Denominator; always positive.
    pub den: i64,
}

/// The representation invariant of [`Rat`].
pub open spec fn rat_wf(a: Rat) -> bool {
    &&& 1 <= a.den
    &&& -(RAT_LIMIT as int) <= a.num
}

/// Both rationals stand for the same number: `a.num/a.den == b.num/b.den`
/// stated by cross multiplication.
pub open spec fn rat_eq(a: Rat, b: Rat) -> bool {
    a.num * b.den == b.num * a.den
}

/// Numerator of the (unreduced) sum.
pub open spec fn add_num(a: Rat, b: Rat) -> int {
    a.num * b.den + b.num * a.den
}

/// Denominator of the (unreduced) sum.
pub open spec fn add_den(a: Rat, b: Rat) -> int {
    a.den * b.den
}

/// The unreduced sum stays within the machine representation.
pub open spec fn add_fits(a: Rat, b: Rat) -> bool {
    &&& -(RAT_LIMIT as int) <= add_num(a, b) <= RAT_LIMIT as int
    &&& add_den(a, b) <= RAT_LIMIT as int
}

/// The unreduced sum itself; meaningful when `add_fits(a, b)`.
pub open spec fn rat_add(a: Rat, b: Rat) -> Rat {
    Rat { num: add_num(a, b) as i64, den: add_den(a, b) as i64 }
}

/// Numerator of the product.
pub open spec fn mul_num(a: Rat, b: Rat) -> int {
    a.num * b.num
}

/// Denominator of the product.
pub open spec fn mul_den(a: Rat, b: Rat) -> int {
    a.den * b.den
}

/// The product stays within the machine representation.
pub open spec fn mul_fits(a: Rat, b: Rat) -> bool {
    &&& -(RAT_LIMIT as int) <= mul_num(a, b) <= RAT_LIMIT as int
    &&& mul_den(a, b) <= RAT_LIMIT as int
}

/// The product itself; meaningful when `mul_fits(a, b)`.
pub open spec fn rat_mul(a: Rat, b: Rat) -> Rat {
    Rat { num: mul_num(a, b) as i64, den: mul_den(a, b) as i64 }
}

/// Zero, as stored by the factories.
pub open spec fn rat_zero() -> Rat {
    Rat { num: 0, den: 1 }
}

/// One, as stored by the factories and the gradient seed.
pub open spec fn rat_one() -> Rat {
    Rat { num: 1, den: 1 }
}

/// `max(a, 0)`, the rectifier applied to one element.
pub open spec fn rat_max0(a: Rat) -> Rat {
    if a.num > 0 {
        a
    } else {
        rat_zero()
    }
}

/// The number is strictly positive.
pub open spec fn rat_pos(a: Rat) -> bool {
    a.num > 0
}

/// Bounds the product of two limited factors, so that `i128` arithmetic
/// below is visibly exact.
proof fn lemma_limited_product(x: int, y: int)
    by (nonlinear_arith)
    requires
        -(RAT_LIMIT as int) <= x <= RAT_LIMIT as int,
        -(RAT_LIMIT as int) <= y <= RAT_LIMIT as int,
    ensures
        -(RAT_LIMIT as int * RAT_LIMIT as int) <= x * y <= RAT_LIMIT as int * RAT_LIMIT as int,
{
}

/// A product of positive factors is positive.
proof fn lemma_pos_product(x: int, y: int)
    by (nonlinear_arith)
    requires
        1 <= x,
        1 <= y,
    ensures
        1 <= x * y,
{
}

impl Rat {
    /// Builds `num / den`, refusing a non-positive denominator and the one
    /// numerator that the representation excludes.
    pub fn new(num: i64, den: i64) -> (r: Option<Rat>)
        ensures
            r is Some <==> (1 <= den && num > i64::MIN),
            r matches Some(c) ==> c.num == num && c.den == den && rat_wf(c),
    {
        if den >= 1 && num > i64::MIN {
            Some(Rat { num, den })
        } else {
            None
        }
    }

    /// The integer `v` as a rational.
    pub fn from_int(v: i64) -> (r: Rat)
        requires
            v > i64::MIN,
        ensures
            r.num == v && r.den == 1,
            rat_wf(r),
    {
        Rat { num: v, den: 1 }
    }

    /// Zero.
    pub fn zero() -> (r: Rat)
        ensures
            r == rat_zero(),
            rat_wf(r),
    {
        Rat { num: 0, den: 1 }
    }

    /// One.
    pub fn one() -> (r: Rat)
        ensures
            r == rat_one(),
            rat_wf(r),
    {
        Rat { num: 1, den: 1 }
    }

    /// Exact sum, or `None` when the unreduced result leaves the
    /// representation.
    pub fn checked_add(self, other: Rat) -> (r: Option<Rat>)
        requires
            rat_wf(self),
            rat_wf(other),
        ensures
            r is Some <==> add_fits(self, other),
            r matches Some(c) ==> c == rat_add(self, other) && rat_wf(c),
    {
        proof {
            lemma_limited_product(self.num as int, other.den as int);
            lemma_limited_product(other.num as int, self.den as int);
            lemma_limited_product(self.den as int, other.den as int);
            lemma_pos_product(self.den as int, other.den as int);
        }
        let n: i128 = (self.num as i128) * (other.den as i128)
            + (other.num as i128) * (self.den as i128);
        let d: i128 = (self.den as i128) * (other.den as i128);
        if -(RAT_LIMIT as i128) <= n && n <= RAT_LIMIT as i128 && d <= RAT_LIMIT as i128 {
            Some(Rat { num: n as i64, den: d as i64 })
        } else {
            None
        }
    }

    /// Exact product, or `None` when the result leaves the representation.
    pub fn checked_mul(self, other: Rat) -> (r: Option<Rat>)
        requires
            rat_wf(self),
            rat_wf(other),
        ensures
            r is Some <==> mul_fits(self, other),
            r matches Some(c) ==> c == rat_mul(self, other) && rat_wf(c),
    {
        proof {
            lemma_limited_product(self.num as int, other.num as int);
            lemma_limited_product(self.den as int, other.den as int);
            lemma_pos_product(self.den as int, other.den as int);
        }
        let n: i128 = (self.num as i128) * (other.num as i128);
        let d: i128 = (self.den as i128) * (other.den as i128);
        if -(RAT_LIMIT as i128) <= n && n <= RAT_LIMIT as i128 && d <= RAT_LIMIT as i128 {
            Some(Rat { num: n as i64, den: d as i64 })
        } else {
            None
        }
    }

    /// `max(self, 0)`.
    pub fn max0(self) -> (r: Rat)
        requires
            rat_wf(self),
        ensures
            r == rat_max0(self),
            rat_wf(r),
    {
        if self.num > 0 {
            self
        } else {
            Rat { num: 0, den: 1 }
        }
    }

    /// The numbers are equal, whatever their representations.
    pub fn eqv(self, other: Rat) -> (r: bool)
        requires
            rat_wf(self),
            rat_wf(other),
        ensures
            r == rat_eq(self, other),
    {
        proof {
            lemma_limited_product(self.num as int, other.den as int);
            lemma_limited_product(other.num as int, self.den as int);
        }
        (self.num as i128) * (other.den as i128) == (other.num as i128) * (self.den as i128)
    }

    /// The number is strictly positive.
    pub fn is_pos(self) -> (r: bool)
        requires
            rat_wf(self),
        ensures
            r == rat_pos(self),
    {
        self.num > 0
    }
}

} // verus!
