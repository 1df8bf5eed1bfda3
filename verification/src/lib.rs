//! A reverse-mode automatic-differentiation engine over scalar computation
//! nodes, together with a thin multi-dimensional array wrapper that composes
//! those nodes element-wise.
//!
//! Nodes live in an arena ([`value::Graph`]); a [`value::Value`] is a handle
//! into that arena. Arithmetic builders record each result's operands, and a
//! single backward traversal then accumulates, for every node that contributed
//! to a root, the exact partial derivative of the root with respect to it.

pub mod deriv;
pub mod tensor;
pub mod value;
