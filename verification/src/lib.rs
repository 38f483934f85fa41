//! Fitting of generalised additive models: the outer search over smoothing and
//! shape parameters, the penalised inner fits, the score (REML, or its Laplace
//! approximation) with its gradient and Hessian, and the rules of the Python
//! surface.
//!
//! A number is a [`double::Double`], the bit pattern of a double. Comparing,
//! clamping and selecting are integer operations on that pattern. Sums, products
//! and elementary functions come from an [`arith::Arithmetic`]; factorisations from
//! a [`traits::DenseBackend`] and an [`inner::linalg::LinearSolver`]; deviances,
//! links and their derivatives from a family ([`traits::Loss`], [`traits::Link`],
//! [`traits::VarianceFn`]). Nothing is promised of what these answer. The contracts
//! say which questions are asked in which order, and what is made of the answers.
//!
//! What the formulas compute is stated apart from how: the laws under
//! [`exact::Residues`] hold of arithmetic without rounding, and say that a gradient
//! is the derivative of its score, that a step solves its equations, that a weight
//! counts copies.

pub mod arith;
pub mod dense;
pub mod double;
pub mod error;
pub mod exact;
pub mod inner;
pub mod matrix;
pub mod outer;
pub mod profile;
pub mod python;
pub mod score;
pub mod special;
pub mod stats;
pub mod text;
pub mod traits;
