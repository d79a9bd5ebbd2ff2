//! The operations of the graph.
//!
//! Each operation computes its forward value, and — when an operand
//! takes part in differentiation — appends a node recording everything
//! its backward rule will need.

pub mod add;
pub mod matmul;
pub mod mean;
pub mod mul;
pub mod relu;
