//! The score over smoothing and shape parameters.

pub mod builder;
pub mod evaluate;
pub mod gradient;
pub mod hessian;
pub mod laws;
pub mod level2;
pub mod level2_laws;
pub mod no_refresh;
pub mod rho_gradient;
pub mod score;
pub mod shape_gradient;
