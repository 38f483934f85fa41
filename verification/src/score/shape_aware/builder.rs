//! Inner solvers for a family whose shape parameters move.

use vstd::prelude::*;

use crate::arith::{lawful, Arithmetic};
use crate::double::{zero, Double};
use crate::inner::closed_form::owned_weights_view;
use crate::inner::gam_fit5::{ridge_scale, ridge_scale_of, OcatInner, OcatLoss};
use crate::inner::linalg::LinearSolver;
use crate::inner::{copy_penalties, penalties_fit, same_penalties};
use crate::inner::pirls::{PirlsInner, PirlsOpts};
use crate::inner::solver::InnerSolver;
use crate::matrix::Matrix;
use crate::traits::{DenseBackend, Family, Link, Loss, VarianceFn};

verus! {

/// The data that an inner solver is built from.
pub struct InnerData {
    /// Design matrix.
    pub x_design: Matrix,
    /// Response.
    pub y: Vec<Double>,
    /// Prior weights.
    pub prior_weights: Option<Vec<Double>>,
    /// One penalty per smooth term.
    pub s_list: Vec<Matrix>,
    /// Options.
    pub opts: PirlsOpts,
    /// Whether the score uses the family's observed curvature, where it has one.
    pub observed_on: bool,
}

impl InnerData {
    /// The shapes agree.
    pub open spec fn wf(&self) -> bool {
        &&& self.x_design.shape(self.y@.len(), self.x_design.cols as nat)
        &&& (self.prior_weights matches Some(v) ==> v@.len() == self.y@.len())
        &&& penalties_fit(self.s_list@, self.x_design.cols as nat)
        &&& (self.opts.eta_init matches Some(v) ==> v@.len() == self.y@.len())
    }

    /// The same data.
    pub open spec fn same(&self, d: InnerData) -> bool {
        &&& self.x_design@ == d.x_design@
        &&& self.x_design.cols == d.x_design.cols
        &&& self.y@ == d.y@
        &&& owned_weights_view(self.prior_weights) == owned_weights_view(d.prior_weights)
        &&& same_penalties(self.s_list@, d.s_list@)
        &&& self.opts.max_iters == d.opts.max_iters
        &&& self.opts.dev_rel_tol == d.opts.dev_rel_tol
        &&& self.opts.halving_steps == d.opts.halving_steps
        &&& owned_weights_view(self.opts.eta_init) == owned_weights_view(d.opts.eta_init)
        &&& self.observed_on == d.observed_on
    }

    /// A copy of the data.
    pub fn copy(&self) -> (d: InnerData)
        requires
            self.wf(),
        ensures
            d.wf(),
            d.same(*self),
            d.s_list@.len() == self.s_list@.len(),
    {
        let p: usize = self.x_design.cols;
        let x_design: Matrix = self.x_design.copy();
        assert(x_design.shape(self.y@.len(), p as nat));
        let y: Vec<Double> = self.y.clone();
        assert(y@ =~= self.y@);
        let prior_weights: Option<Vec<Double>> = copy_weights(&self.prior_weights);
        let eta_init: Option<Vec<Double>> = copy_weights(&self.opts.eta_init);
        let s_list: Vec<Matrix> = copy_penalties(&self.s_list, p);
        InnerData {
            x_design,
            y,
            prior_weights,
            s_list,
            opts: PirlsOpts {
                max_iters: self.opts.max_iters,
                dev_rel_tol: self.opts.dev_rel_tol,
                halving_steps: self.opts.halving_steps,
                eta_init,
            },
            observed_on: self.observed_on,
        }
    }
}

fn copy_weights(w: &Option<Vec<Double>>) -> (r: Option<Vec<Double>>)
    ensures
        owned_weights_view(r) == owned_weights_view(*w),
{
    match w {
        Some(v) => {
            let c: Vec<Double> = v.clone();
            assert(c@ =~= v@);
            Some(c)
        },
        None => None,
    }
}

/// Builds an inner solver for a family at given shape parameters.
pub trait ShapeInnerBuilder<F: Arithmetic, D: DenseBackend, S: LinearSolver, L: Loss, K: Link, V: VarianceFn>: Sized {
    /// The solver it builds.
    type Inner: InnerSolver<F, D, S>;

    /// The solver holds a family and data.
    spec fn holds(inner: Self::Inner, family: Family<L, K, V>, data: InnerData) -> bool;

    /// The factor of the ridge that the solver puts on its last factorisation.
    spec fn ridge(n_terms: usize) -> Double;

    /// Builds the solver.
    fn build(&self, family: Family<L, K, V>, data: InnerData) -> (inner: Self::Inner)
        requires
            lawful::<F>(),
            data.wf(),
        ensures
            inner.ready(),
            inner.terms() == data.s_list@.len(),
            Self::holds(inner, family, data),
    ;

    /// The factor of the ridge that the solver puts on its last factorisation.
    fn score_ridge_scale(&self, n_terms: usize) -> (r: Double)
        requires
            lawful::<F>(),
        ensures
            r == Self::ridge(n_terms),
    ;
}

/// Builds solvers of reweighted least squares.
#[derive(Clone, Copy, Debug, Default, PartialEq, Eq, Structural)]
pub struct PirlsInnerBuilder;

impl<F: Arithmetic, D: DenseBackend, S: LinearSolver, L: Loss, K: Link, V: VarianceFn> ShapeInnerBuilder<
    F,
    D,
    S,
    L,
    K,
    V,
> for PirlsInnerBuilder {
    type Inner = PirlsInner<L, K, V>;

    open spec fn holds(inner: PirlsInner<L, K, V>, family: Family<L, K, V>, data: InnerData) -> bool {
        &&& inner.family == family
        &&& inner.x_design == data.x_design
        &&& inner.y == data.y
        &&& inner.prior_weights == data.prior_weights
        &&& inner.s_list == data.s_list
        &&& inner.opts == data.opts
        &&& inner.observed_on == data.observed_on
    }

    open spec fn ridge(n_terms: usize) -> Double {
        zero()
    }

    fn build(&self, family: Family<L, K, V>, data: InnerData) -> (inner: PirlsInner<L, K, V>) {
        PirlsInner {
            x_design: data.x_design,
            y: data.y,
            prior_weights: data.prior_weights,
            s_list: data.s_list,
            family,
            opts: data.opts,
            observed_on: data.observed_on,
        }
    }

    fn score_ridge_scale(&self, n_terms: usize) -> (r: Double) {
        zero()
    }
}

/// Builds solvers of ordered categories.
#[derive(Clone, Copy, Debug, Default, PartialEq, Eq, Structural)]
pub struct OcatInnerBuilder;

impl<F: Arithmetic, D: DenseBackend, S: LinearSolver, O: OcatLoss + Loss, K: Link, V: VarianceFn> ShapeInnerBuilder<
    F,
    D,
    S,
    O,
    K,
    V,
> for OcatInnerBuilder {
    type Inner = OcatInner<O>;

    open spec fn holds(inner: OcatInner<O>, family: Family<O, K, V>, data: InnerData) -> bool {
        &&& inner.loss == family.loss
        &&& inner.x_design == data.x_design
        &&& inner.y == data.y
        &&& inner.prior_weights == data.prior_weights
        &&& inner.s_list == data.s_list
        &&& inner.opts == data.opts
    }

    open spec fn ridge(n_terms: usize) -> Double {
        ridge_scale_of::<F>(n_terms)
    }

    fn build(&self, family: Family<O, K, V>, data: InnerData) -> (inner: OcatInner<O>) {
        OcatInner {
            x_design: data.x_design,
            y: data.y,
            prior_weights: data.prior_weights,
            s_list: data.s_list,
            loss: family.loss,
            opts: data.opts,
        }
    }

    fn score_ridge_scale(&self, n_terms: usize) -> (r: Double) {
        ridge_scale::<F>(n_terms)
    }
}

} // verus!
