//! A small reverse-mode automatic-differentiation engine over dense
//! n-dimensional tensors of exact rational numbers.
//!
//! Operations build a computation graph as they execute; a backward pass
//! replays the graph in reverse topological order and accumulates exact
//! gradients into every node that asked for them.
//!
//! - [`rat`] holds the exact scalar: a rational over machine integers
//!   whose checked arithmetic reports overflow instead of rounding.
//! - [`buffer`] couples a shape with a flat row-major element vector.
//! - [`shape`] translates between flat positions and coordinates and
//!   decides trailing-dimension broadcasting.
//! - [`kernel`] and [`matrix`] are the element-level computations:
//!   broadcast maps, the broadcast-inverting reduction, sums, the
//!   rectifier, and the matrix contractions.
//! - [`tensor`] is the graph: an arena of nodes whose parents always
//!   have smaller indices, so it is acyclic by construction.
//! - [`ops`] are the five differentiable operations; [`autograd`] is
//!   the backward engine, specified as an interpreter over the graph
//!   model; [`laws`] states and proves the library-wide theorems.

use vstd::prelude::*;

pub mod autograd;
pub mod buffer;
pub mod kernel;
pub mod laws;
pub mod matrix;
pub mod ops;
pub mod rat;
pub mod shape;
pub mod tensor;

verus! {

/// The error taxonomy of the library.
///
/// Every fallible operation reports the first violated condition and
/// leaves the graph in a well-formed state.
#[derive(Clone, Copy, Debug, PartialEq, Eq, Structural)]
pub enum TensorError {
    /// Operand shapes cannot be broadcast, reshaped or multiplied together.
    ShapeError,
    /// A backward step was asked of a node whose gradient was never seeded.
    MissingGradient,
    /// A reduction was asked of a tensor with zero elements.
    EmptyTensor,
    /// An operation was given a tensor rank it does not implement.
    UnsupportedRank,
    /// An exact rational result no longer fits the machine representation.
    Overflow,
}

} // verus!
