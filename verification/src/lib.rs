//! The planning core of a reverse-mode automatic differentiation engine over
//! tensors of any number of axes.
//!
//! A graph of operations is walked forward to compute values and backward to
//! collect gradients. Each operation has a node for either walk. A node of
//! this library holds the shapes of its tensors and never their numbers: it
//! plans what is to be done, as a list of steps, and the holder of the numbers
//! carries the plan out.
//!
//! - [`index`] orders the indices of a shape.
//! - [`shape`] holds shapes and the rules by which shapes combine.
//! - [`layout`] places the indices of a shape in a buffer, and follows
//!   transposition, broadcasting, windows and added or dropped axes.
//! - [`plan`] holds the steps.
//! - [`node`] holds the nodes, the protocol by which the first write to a
//!   gradient in a backward pass replaces it and every later one adds to it,
//!   and the reduction of a broadcast gradient to the shape of an operand.

pub mod index;
pub mod layout;
pub mod node;
pub mod plan;
pub mod shape;
