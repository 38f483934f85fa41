//! The score of a fit, REML or its Laplace approximation, with its derivatives.

pub mod envelope;
pub mod exact_laws;
pub mod hess_ift;
pub mod hessian_laws;
pub mod laws;
pub mod profile;
pub mod shape_aware;
