//! A dense matrix and a small feed-forward network trained by batch gradient
//! descent.
//!
//! The type of the entries is a parameter: any type that brings the
//! arithmetic of a number (`+`, `-`, `*`, `/`, `<`, `>`, `==` and a zero) will
//! do, the floating-point types first of all. The activation function of the
//! network and its derivative are parameters too.
//!
//! Every function carries a contract, stated over a mathematical model:
//! a [`grid::Grid`] for a matrix, a [`net::Net`] for a network. What moves
//! entries about (transposing, slicing, taking a row) is stated by equations.
//! What computes with entries is stated through the arithmetic of the entry
//! type itself: an entry of a sum is a value that the entry type's `+` may
//! return for the two operands, an entry of a product is a value that
//! adding up the products from the left may give, and so on up to a whole
//! round of training. Nothing is assumed of that arithmetic, so the contracts
//! hold for every entry type. Where it is a function of its operands, they
//! leave one result only ([`unique`]), and for the integers they give the
//! sums of the textbook ([`exact`]).
//!
//! - [`error`]: the error kinds.
//! - [`scalar`]: vocabulary for the arithmetic of an entry type.
//! - [`grid`]: the model of a matrix and of the operations on matrices.
//! - [`linalg`]: the matrix.
//! - [`text`]: a matrix laid out as text.
//! - [`net`]: the model of a network and of the operations on networks.
//! - [`nn`]: the network.
//! - [`dataset`]: encoding categories, dividing a data set, counting how
//!   predictions fared.
//! - [`exact`], [`unique`]: what the contracts come to for exact arithmetic.
pub mod error;
pub mod scalar;
pub mod grid;
pub mod linalg;
mod equality;
pub mod text;
pub mod net;
pub mod nn;
pub mod dataset;
pub mod exact;
pub mod unique;
mod rng;
