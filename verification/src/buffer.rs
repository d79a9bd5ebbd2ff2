//! The dense n-dimensional storage of a tensor.
//!
//! A [`Buffer`] couples a shape with a flat row-major vector of exact
//! rational elements; the element count always equals the product of the
//! dimensions.

use vstd::prelude::*;
use crate::rat::{Rat, rat_wf, rat_eq, rat_zero, rat_one};
use crate::shape::{prod, checked_prod};
use crate::TensorError;

verus! {

/// Every element of the sequence is a well-formed rational.
pub open spec fn all_wf(d: Seq<Rat>) -> bool {
    forall|i: int| 0 <= i < d.len() ==> rat_wf(#[trigger] d[i])
}

/// A dense n-dimensional array of rationals, stored row-major.
#[derive(Debug)]
pub struct Buffer {
    /// The size of each dimension; empty for a scalar.
    pub shape: Vec<usize>,
    /// The elements, one flat row-major vector.
    pub data: Vec<Rat>,
}

/// The representation invariant of [`Buffer`].
pub open spec fn buf_wf(b: Buffer) -> bool {
    &&& b.data@.len() == prod(b.shape@)
    &&& all_wf(b.data@)
}

/// Both buffers have the same shape and stand for the same numbers.
pub open spec fn buf_eqv(a: Buffer, b: Buffer) -> bool {
    &&& a.shape@ == b.shape@
    &&& a.data@.len() == b.data@.len()
    &&& forall|f: int| 0 <= f < a.data@.len() ==> rat_eq(#[trigger] a.data@[f], b.data@[f])
}

impl Buffer {
    /// Wraps a flat vector of elements in a shape.
    pub fn from_rats(shape: Vec<usize>, data: Vec<Rat>) -> (r: Result<Buffer, TensorError>)
        requires
            all_wf(data@),
        ensures
            r matches Ok(b) ==> b.shape@ == shape@ && b.data@ == data@ && buf_wf(b),
            r is Ok <==> data@.len() == prod(shape@),
            r matches Err(e) ==> e == TensorError::ShapeError,
    {
        let len = data.len();
        match checked_prod(&shape) {
            Some(n) => {
                if n == len {
                    Ok(Buffer { shape, data })
                } else {
                    Err(TensorError::ShapeError)
                }
            },
            None => {
                proof {
                    assert(len <= usize::MAX < prod(shape@));
                }
                Err(TensorError::ShapeError)
            },
        }
    }

    /// An element-for-element copy.
    pub fn duplicate(&self) -> (r: Buffer)
        ensures
            r.shape@ == self.shape@,
            r.data@ == self.data@,
    {
        let mut shape: Vec<usize> = Vec::new();
        let mut i: usize = 0;
        while i < self.shape.len()
            invariant
                0 <= i <= self.shape@.len(),
                shape@ == self.shape@.take(i as int),
            decreases self.shape@.len() - i,
        {
            proof {
                assert(self.shape@.take(i + 1) =~= self.shape@.take(i as int).push(
                    self.shape@[i as int],
                ));
            }
            shape.push(self.shape[i]);
            i = i + 1;
        }
        let mut data: Vec<Rat> = Vec::new();
        let mut f: usize = 0;
        while f < self.data.len()
            invariant
                0 <= f <= self.data@.len(),
                data@ == self.data@.take(f as int),
            decreases self.data@.len() - f,
        {
            proof {
                assert(self.data@.take(f + 1) =~= self.data@.take(f as int).push(
                    self.data@[f as int],
                ));
            }
            data.push(self.data[f]);
            f = f + 1;
        }
        proof {
            assert(self.shape@.take(self.shape@.len() as int) =~= self.shape@);
            assert(self.data@.take(self.data@.len() as int) =~= self.data@);
        }
        Buffer { shape, data }
    }

    /// Wraps a flat vector of integers in a shape.
    pub fn from_ints(shape: Vec<usize>, vals: Vec<i64>) -> (r: Result<Buffer, TensorError>)
        requires
            forall|i: int| 0 <= i < vals@.len() ==> #[trigger] vals@[i] > i64::MIN,
        ensures
            r matches Ok(b) ==> {
                &&& b.shape@ == shape@
                &&& buf_wf(b)
                &&& b.data@.len() == vals@.len()
                &&& forall|i: int|
                    0 <= i < vals@.len() ==> (#[trigger] b.data@[i]).num == vals@[i]
                        && b.data@[i].den == 1
            },
            r is Ok <==> vals@.len() == prod(shape@),
            r matches Err(e) ==> e == TensorError::ShapeError,
    {
        let mut data: Vec<Rat> = Vec::new();
        let mut i: usize = 0;
        while i < vals.len()
            invariant
                forall|k: int| 0 <= k < vals@.len() ==> #[trigger] vals@[k] > i64::MIN,
                0 <= i <= vals@.len(),
                data@.len() == i,
                forall|k: int|
                    0 <= k < i ==> (#[trigger] data@[k]).num == vals@[k] && data@[k].den == 1
                        && rat_wf(data@[k]),
            decreases vals@.len() - i,
        {
            data.push(Rat::from_int(vals[i]));
            i = i + 1;
        }
        Buffer::from_rats(shape, data)
    }

    /// Wraps a flat vector of fractions `nums[i] / dens[i]` in a shape.
    pub fn from_fracs(shape: Vec<usize>, nums: Vec<i64>, dens: Vec<i64>) -> (r: Result<
        Buffer,
        TensorError,
    >)
        requires
            nums@.len() == dens@.len(),
            forall|i: int| 0 <= i < nums@.len() ==> #[trigger] nums@[i] > i64::MIN,
            forall|i: int| 0 <= i < dens@.len() ==> #[trigger] dens@[i] >= 1,
        ensures
            r matches Ok(b) ==> {
                &&& b.shape@ == shape@
                &&& buf_wf(b)
                &&& b.data@.len() == nums@.len()
                &&& forall|i: int|
                    0 <= i < nums@.len() ==> (#[trigger] b.data@[i]).num == nums@[i]
                        && b.data@[i].den == dens@[i]
            },
            r is Ok <==> nums@.len() == prod(shape@),
            r matches Err(e) ==> e == TensorError::ShapeError,
    {
        let mut data: Vec<Rat> = Vec::new();
        let mut i: usize = 0;
        while i < nums.len()
            invariant
                nums@.len() == dens@.len(),
                forall|k: int| 0 <= k < nums@.len() ==> #[trigger] nums@[k] > i64::MIN,
                forall|k: int| 0 <= k < dens@.len() ==> #[trigger] dens@[k] >= 1,
                0 <= i <= nums@.len(),
                data@.len() == i,
                forall|k: int|
                    0 <= k < i ==> (#[trigger] data@[k]).num == nums@[k] && data@[k].den == dens@[k]
                        && rat_wf(data@[k]),
            decreases nums@.len() - i,
        {
            data.push(Rat { num: nums[i], den: dens[i] });
            i = i + 1;
        }
        Buffer::from_rats(shape, data)
    }

    /// A buffer of the given shape with every element equal to `v`.
    pub fn filled(shape: Vec<usize>, v: Rat) -> (r: Buffer)
        requires
            prod(shape@) <= usize::MAX,
            rat_wf(v),
        ensures
            r.shape@ == shape@,
            buf_wf(r),
            forall|i: int| 0 <= i < r.data@.len() ==> #[trigger] r.data@[i] == v,
    {
        let n = match checked_prod(&shape) {
            Some(n) => n,
            None => 0,  // unreachable under the precondition
        };
        let mut data: Vec<Rat> = Vec::new();
        let mut i: usize = 0;
        while i < n
            invariant
                rat_wf(v),
                0 <= i <= n,
                data@.len() == i,
                forall|k: int| 0 <= k < i ==> #[trigger] data@[k] == v,
            decreases n - i,
        {
            data.push(v);
            i = i + 1;
        }
        Buffer { shape, data }
    }

    /// A buffer of zeros.
    pub fn zeros(shape: Vec<usize>) -> (r: Buffer)
        requires
            prod(shape@) <= usize::MAX,
        ensures
            r.shape@ == shape@,
            buf_wf(r),
            forall|i: int| 0 <= i < r.data@.len() ==> #[trigger] r.data@[i] == rat_zero(),
    {
        Buffer::filled(shape, Rat::zero())
    }

    /// A buffer of ones.
    pub fn ones(shape: Vec<usize>) -> (r: Buffer)
        requires
            prod(shape@) <= usize::MAX,
        ensures
            r.shape@ == shape@,
            buf_wf(r),
            forall|i: int| 0 <= i < r.data@.len() ==> #[trigger] r.data@[i] == rat_one(),
    {
        Buffer::filled(shape, Rat::one())
    }

    /// The number of elements.
    pub fn numel(&self) -> (r: usize)
        ensures
            r == self.data@.len(),
    {
        self.data.len()
    }

    /// The rank: how many dimensions the shape has.
    pub fn rank(&self) -> (r: usize)
        ensures
            r == self.shape@.len(),
    {
        self.shape.len()
    }

    /// The element at flat position `f`.
    pub fn get(&self, f: usize) -> (r: Rat)
        requires
            f < self.data@.len(),
        ensures
            r == self.data@[f as int],
    {
        self.data[f]
    }

    /// Whether both buffers have exactly the same shape.
    pub fn shape_eq(&self, other: &Buffer) -> (r: bool)
        ensures
            r == (self.shape@ == other.shape@),
    {
        if self.shape.len() != other.shape.len() {
            proof {
                assert(self.shape@ != other.shape@);
            }
            return false;
        }
        let mut i: usize = 0;
        while i < self.shape.len()
            invariant
                self.shape@.len() == other.shape@.len(),
                0 <= i <= self.shape@.len(),
                forall|k: int| 0 <= k < i ==> self.shape@[k] == other.shape@[k],
            decreases self.shape@.len() - i,
        {
            if self.shape[i] != other.shape[i] {
                proof {
                    assert(self.shape@ != other.shape@);
                }
                return false;
            }
            i = i + 1;
        }
        proof {
            assert(self.shape@ =~= other.shape@);
        }
        true
    }

    /// Same shape and, element for element, the same numbers.
    pub fn eqv(&self, other: &Buffer) -> (r: bool)
        requires
            buf_wf(*self),
            buf_wf(*other),
        ensures
            r == buf_eqv(*self, *other),
    {
        if self.shape.len() != other.shape.len() {
            proof {
                assert(self.shape@ != other.shape@);
            }
            return false;
        }
        let mut i: usize = 0;
        while i < self.shape.len()
            invariant
                self.shape@.len() == other.shape@.len(),
                0 <= i <= self.shape@.len(),
                forall|k: int| 0 <= k < i ==> self.shape@[k] == other.shape@[k],
            decreases self.shape@.len() - i,
        {
            if self.shape[i] != other.shape[i] {
                proof {
                    assert(self.shape@ != other.shape@);
                }
                return false;
            }
            i = i + 1;
        }
        proof {
            assert(self.shape@ =~= other.shape@);
            assert(self.data@.len() == other.data@.len());
        }
        let mut f: usize = 0;
        while f < self.data.len()
            invariant
                buf_wf(*self),
                buf_wf(*other),
                self.shape@ == other.shape@,
                self.data@.len() == other.data@.len(),
                0 <= f <= self.data@.len(),
                forall|k: int| 0 <= k < f ==> rat_eq(#[trigger] self.data@[k], other.data@[k]),
            decreases self.data@.len() - f,
        {
            if !self.data[f].eqv(other.data[f]) {
                return false;
            }
            f = f + 1;
        }
        true
    }
}

} // verus!
