//! What the scores ask of an inner solver, and the solvers that answer it.

use vstd::prelude::*;

use crate::arith::{lawful, Arithmetic};
use crate::double::Double;
use crate::error::GamrsError;
use crate::inner::armijo::{scales_ok, tau_ok, ArmijoElfInner, ElfLoss};
use crate::inner::closed_form::{
    gaussian_fit, owned_weights_view, prior_or_ones, GaussianClosedFormInner,
};
use crate::inner::gam_fit5::{OcatInner, OcatLoss};
use crate::inner::linalg::LinearSolver;
use crate::inner::pirls::curvature::{
    lazy_newton_log_det_h, lazy_tk_kkt_inputs, newton_log_det_of, tk_inputs_of,
};
use crate::inner::pirls::PirlsInner;
use crate::inner::{combined_s, combined_s_of, GaussianInnerFit, TkKKTInputs};
use crate::matrix::Matrix;
use crate::traits::{DenseBackend, Link, Loss, VarianceFn};

verus! {

/// An inner solver: the penalised fit at given log smoothing parameters.
pub trait InnerSolver<F: Arithmetic, D: DenseBackend, S: LinearSolver>: Sized {
    /// The solver is in order.
    spec fn ready(&self) -> bool;

    /// Number of smoothing parameters.
    spec fn terms(&self) -> nat;

    /// What a fit started at given coefficients, or without, comes to.
    spec fn fits(
        &self,
        rho: Seq<Double>,
        beta_warm: Option<&Vec<Double>>,
        r: Result<GaussianInnerFit<S>, GamrsError>,
    ) -> bool;

    /// What one reweighted step comes to.
    spec fn steps(
        &self,
        rho: Seq<Double>,
        beta_warm: Option<&Vec<Double>>,
        r: Result<GaussianInnerFit<S>, GamrsError>,
    ) -> bool;

    /// What takes the place of the factor's log determinant at a mean.
    spec fn newton_log_det(&self, mu: Seq<Double>, rho: Seq<Double>, r: Option<Double>) -> bool;

    /// What the weight-chain gradient term is made from at a mean.
    spec fn tk_inputs(
        &self,
        mu: Seq<Double>,
        beta: Seq<Double>,
        rho: Seq<Double>,
        r: Option<TkKKTInputs>,
    ) -> bool;

    /// The fit.
    fn fit(&self, rho: &Vec<Double>) -> (r: Result<GaussianInnerFit<S>, GamrsError>)
        requires
            self.ready(),
            rho@.len() == self.terms(),
        ensures
            self.fits(rho@, None, r),
    ;

    /// The fit, started at given coefficients where the solver can use them.
    fn fit_warm(&self, rho: &Vec<Double>, beta_warm: Option<&Vec<Double>>) -> (r: Result<
        GaussianInnerFit<S>,
        GamrsError,
    >)
        requires
            self.ready(),
            rho@.len() == self.terms(),
        ensures
            self.fits(rho@, beta_warm, r),
    ;

    /// One reweighted step from given coefficients, where the solver has one.
    fn fit_single_irls(&self, rho: &Vec<Double>, beta_warm: Option<&Vec<Double>>) -> (r: Result<
        GaussianInnerFit<S>,
        GamrsError,
    >)
        requires
            self.ready(),
            rho@.len() == self.terms(),
        ensures
            self.steps(rho@, beta_warm, r),
    ;

    /// The log determinant that takes the place of the factor's, where the family
    /// asks for one.
    fn lazy_newton_log_det_h(&self, fit: &GaussianInnerFit<S>, rho: &Vec<Double>) -> (r: Option<Double>)
        requires
            self.ready(),
            rho@.len() == self.terms(),
        ensures
            self.newton_log_det(fit.mu@, rho@, r),
    ;

    /// The inputs of the weight-chain gradient term, where the family asks for
    /// it.
    fn lazy_tk_kkt_inputs(&self, fit: &GaussianInnerFit<S>, rho: &Vec<Double>) -> (r: Option<TkKKTInputs>)
        requires
            self.ready(),
            rho@.len() == self.terms(),
        ensures
            self.tk_inputs(fit.mu@, fit.beta@, rho@, r),
    ;
}

/// An error about a start of the wrong length.
pub open spec fn warm_refused(e: GamrsError) -> bool {
    e matches GamrsError::InvalidParameter(m) && m@ == "warm start has the wrong length"@
}

fn refuse_warm() -> (e: GamrsError)
    ensures
        warm_refused(e),
{
    GamrsError::InvalidParameter("warm start has the wrong length".to_owned())
}

/// The start has one coefficient for each of `p`, if there is one.
pub open spec fn warm_fits(beta_warm: Option<&Vec<Double>>, p: usize) -> bool {
    beta_warm matches Some(b) ==> b@.len() == p
}

fn warm_ok(beta_warm: Option<&Vec<Double>>, p: usize) -> (b: bool)
    ensures
        b == warm_fits(beta_warm, p),
{
    match beta_warm {
        Some(v) => v.len() == p,
        None => true,
    }
}

impl<F: Arithmetic, D: DenseBackend, S: LinearSolver, L: Loss, K: Link, V: VarianceFn> InnerSolver<
    F,
    D,
    S,
> for PirlsInner<L, K, V> {
    open spec fn ready(&self) -> bool {
        lawful::<F>() && self.wf()
    }

    open spec fn terms(&self) -> nat {
        self.s_list@.len()
    }

    open spec fn fits(
        &self,
        rho: Seq<Double>,
        beta_warm: Option<&Vec<Double>>,
        r: Result<GaussianInnerFit<S>, GamrsError>,
    ) -> bool {
        let s_total = combined_s_of::<F>(self.s_list@, rho, self.x_design.cols as nat);
        if warm_fits(beta_warm, self.x_design.cols) {
            match r {
                Ok(fit) => self.fitted::<F, S>(s_total, beta_warm, fit),
                Err(e) => self.fit_error::<F, S>(s_total, beta_warm, e),
            }
        } else {
            r matches Err(e) && warm_refused(e)
        }
    }

    open spec fn steps(
        &self,
        rho: Seq<Double>,
        beta_warm: Option<&Vec<Double>>,
        r: Result<GaussianInnerFit<S>, GamrsError>,
    ) -> bool {
        if warm_fits(beta_warm, self.x_design.cols) {
            match r {
                Ok(fit) => self.single_step::<F, S>(rho, beta_warm, fit),
                Err(e) => self.single_fails::<F, S>(rho, beta_warm, e),
            }
        } else {
            r matches Err(e) && warm_refused(e)
        }
    }

    /// `None` where the loss does not use the observed information.
    open spec fn newton_log_det(&self, mu: Seq<Double>, rho: Seq<Double>, r: Option<Double>) -> bool {
        exists|newton: bool| #[trigger]
            call_ensures(L::use_newton_irls, (&self.family.loss,), newton) && if newton && mu.len()
                == self.y@.len() {
                newton_log_det_of::<F, K, V, D>(
                    self.family.link,
                    self.family.variance,
                    self.y@,
                    mu,
                    self.prior(),
                    self.x_design,
                    combined_s_of::<F>(self.s_list@, rho, self.x_design.cols as nat),
                    r,
                )
            } else {
                r is None
            }
    }

    /// `None` where the loss does not use the observed information.
    open spec fn tk_inputs(
        &self,
        mu: Seq<Double>,
        beta: Seq<Double>,
        rho: Seq<Double>,
        r: Option<TkKKTInputs>,
    ) -> bool {
        exists|newton: bool| #[trigger]
            call_ensures(L::use_newton_irls, (&self.family.loss,), newton) && if newton && mu.len()
                == self.y@.len() && beta.len() == self.x_design.cols {
                tk_inputs_of::<F, K, V, D>(
                    self.family.link,
                    self.family.variance,
                    self.y@,
                    mu,
                    beta,
                    self.x_design@,
                    self.s_list@,
                    combined_s_of::<F>(self.s_list@, rho, self.x_design.cols as nat),
                    rho,
                    r,
                )
            } else {
                r is None
            }
    }

    fn fit(&self, rho: &Vec<Double>) -> (r: Result<GaussianInnerFit<S>, GamrsError>)
    {
        PirlsInner::fit_warm::<F, S>(self, rho, None)
    }

    fn fit_warm(&self, rho: &Vec<Double>, beta_warm: Option<&Vec<Double>>) -> (r: Result<
        GaussianInnerFit<S>,
        GamrsError,
    >)
    {
        if !warm_ok(beta_warm, self.x_design.cols) {
            return Err(refuse_warm());
        }
        PirlsInner::fit_warm::<F, S>(self, rho, beta_warm)
    }

    fn fit_single_irls(&self, rho: &Vec<Double>, beta_warm: Option<&Vec<Double>>) -> (r: Result<
        GaussianInnerFit<S>,
        GamrsError,
    >)
    {
        if !warm_ok(beta_warm, self.x_design.cols) {
            return Err(refuse_warm());
        }
        PirlsInner::fit_single_irls::<F, S>(self, rho, beta_warm)
    }

    fn lazy_newton_log_det_h(&self, fit: &GaussianInnerFit<S>, rho: &Vec<Double>) -> (r: Option<Double>)
    {
        if !self.family.loss.use_newton_irls() {
            return None;
        }
        let n: usize = self.y.len();
        if fit.mu.len() != n {
            return None;
        }
        let w0: Option<&Vec<Double>> = self.prior_weights.as_ref();
        let prior: Vec<Double> = prior_or_ones(w0, n);
        assert(prior@ == self.prior());
        let s_total: Matrix = combined_s::<F>(&self.s_list, rho, self.x_design.cols);
        lazy_newton_log_det_h::<F, K, V, D>(
            &self.family.link,
            &self.family.variance,
            &self.y,
            &fit.mu,
            &prior,
            &self.x_design,
            &s_total,
        )
    }

    fn lazy_tk_kkt_inputs(&self, fit: &GaussianInnerFit<S>, rho: &Vec<Double>) -> (r: Option<TkKKTInputs>)
    {
        if !self.family.loss.use_newton_irls() {
            return None;
        }
        if fit.mu.len() != self.y.len() || fit.beta.len() != self.x_design.cols {
            return None;
        }
        let s_total: Matrix = combined_s::<F>(&self.s_list, rho, self.x_design.cols);
        lazy_tk_kkt_inputs::<F, K, V, D>(
            &self.family.link,
            &self.family.variance,
            &self.y,
            &fit.mu,
            &fit.beta,
            &self.x_design,
            &self.s_list,
            &s_total,
            rho,
        )
    }
}

impl<F: Arithmetic, D: DenseBackend, S: LinearSolver> InnerSolver<F, D, S> for GaussianClosedFormInner {
    open spec fn ready(&self) -> bool {
        lawful::<F>() && self.wf::<F>()
    }

    open spec fn terms(&self) -> nat {
        self.s_list@.len()
    }

    open spec fn fits(
        &self,
        rho: Seq<Double>,
        beta_warm: Option<&Vec<Double>>,
        r: Result<GaussianInnerFit<S>, GamrsError>,
    ) -> bool {
        match r {
            Ok(fit) => gaussian_fit::<F, S>(
                self.x_design@,
                self.y@,
                owned_weights_view(self.weights),
                self.penalised::<F>(rho),
                self.rhs::<F>(),
                fit,
            ),
            Err(e) => self.fit_error::<F, S>(rho, e),
        }
    }

    open spec fn steps(
        &self,
        rho: Seq<Double>,
        beta_warm: Option<&Vec<Double>>,
        r: Result<GaussianInnerFit<S>, GamrsError>,
    ) -> bool {
        <Self as InnerSolver<F, D, S>>::fits(self, rho, None, r)
    }

    open spec fn newton_log_det(&self, mu: Seq<Double>, rho: Seq<Double>, r: Option<Double>) -> bool {
        r is None
    }

    open spec fn tk_inputs(
        &self,
        mu: Seq<Double>,
        beta: Seq<Double>,
        rho: Seq<Double>,
        r: Option<TkKKTInputs>,
    ) -> bool {
        r is None
    }

    fn fit(&self, rho: &Vec<Double>) -> (r: Result<GaussianInnerFit<S>, GamrsError>)
    {
        GaussianClosedFormInner::fit::<F, S>(self, rho)
    }

    fn fit_warm(&self, rho: &Vec<Double>, beta_warm: Option<&Vec<Double>>) -> (r: Result<
        GaussianInnerFit<S>,
        GamrsError,
    >)
    {
        GaussianClosedFormInner::fit::<F, S>(self, rho)
    }

    fn fit_single_irls(&self, rho: &Vec<Double>, beta_warm: Option<&Vec<Double>>) -> (r: Result<
        GaussianInnerFit<S>,
        GamrsError,
    >)
    {
        GaussianClosedFormInner::fit::<F, S>(self, rho)
    }

    fn lazy_newton_log_det_h(&self, fit: &GaussianInnerFit<S>, rho: &Vec<Double>) -> (r: Option<Double>)
    {
        None
    }

    fn lazy_tk_kkt_inputs(&self, fit: &GaussianInnerFit<S>, rho: &Vec<Double>) -> (r: Option<TkKKTInputs>)
    {
        None
    }
}

impl<F: Arithmetic, D: DenseBackend, S: LinearSolver, O: OcatLoss> InnerSolver<F, D, S> for OcatInner<O> {
    open spec fn ready(&self) -> bool {
        lawful::<F>() && self.wf()
    }

    open spec fn terms(&self) -> nat {
        self.s_list@.len()
    }

    open spec fn fits(
        &self,
        rho: Seq<Double>,
        beta_warm: Option<&Vec<Double>>,
        r: Result<GaussianInnerFit<S>, GamrsError>,
    ) -> bool {
        let s_total = combined_s_of::<F>(self.s_list@, rho, self.x_design.cols as nat);
        match r {
            Ok(fit) => self.fitted::<F, S>(s_total, fit),
            Err(e) => self.fit_error::<F, S>(s_total, e),
        }
    }

    open spec fn steps(
        &self,
        rho: Seq<Double>,
        beta_warm: Option<&Vec<Double>>,
        r: Result<GaussianInnerFit<S>, GamrsError>,
    ) -> bool {
        <Self as InnerSolver<F, D, S>>::fits(self, rho, None, r)
    }

    open spec fn newton_log_det(&self, mu: Seq<Double>, rho: Seq<Double>, r: Option<Double>) -> bool {
        r is None
    }

    open spec fn tk_inputs(
        &self,
        mu: Seq<Double>,
        beta: Seq<Double>,
        rho: Seq<Double>,
        r: Option<TkKKTInputs>,
    ) -> bool {
        r is None
    }

    fn fit(&self, rho: &Vec<Double>) -> (r: Result<GaussianInnerFit<S>, GamrsError>)
    {
        OcatInner::fit::<F, S>(self, rho)
    }

    fn fit_warm(&self, rho: &Vec<Double>, beta_warm: Option<&Vec<Double>>) -> (r: Result<
        GaussianInnerFit<S>,
        GamrsError,
    >)
    {
        OcatInner::fit::<F, S>(self, rho)
    }

    fn fit_single_irls(&self, rho: &Vec<Double>, beta_warm: Option<&Vec<Double>>) -> (r: Result<
        GaussianInnerFit<S>,
        GamrsError,
    >)
    {
        OcatInner::fit::<F, S>(self, rho)
    }

    fn lazy_newton_log_det_h(&self, fit: &GaussianInnerFit<S>, rho: &Vec<Double>) -> (r: Option<Double>)
    {
        None
    }

    fn lazy_tk_kkt_inputs(&self, fit: &GaussianInnerFit<S>, rho: &Vec<Double>) -> (r: Option<TkKKTInputs>)
    {
        None
    }
}

impl<F: Arithmetic, D: DenseBackend, S: LinearSolver, E: ElfLoss> InnerSolver<F, D, S> for ArmijoElfInner<E> {
    open spec fn ready(&self) -> bool {
        lawful::<F>() && self.wf()
    }

    open spec fn terms(&self) -> nat {
        self.s_list@.len()
    }

    open spec fn fits(
        &self,
        rho: Seq<Double>,
        beta_warm: Option<&Vec<Double>>,
        r: Result<GaussianInnerFit<S>, GamrsError>,
    ) -> bool {
        let s_total = combined_s_of::<F>(self.s_list@, rho, self.x_design.cols as nat);
        match r {
            Ok(fit) => tau_ok(self.params) && scales_ok(self.params) && self.fitted::<F, D, S>(s_total, fit),
            Err(e) => self.fit_error::<F, D, S>(s_total, e),
        }
    }

    open spec fn steps(
        &self,
        rho: Seq<Double>,
        beta_warm: Option<&Vec<Double>>,
        r: Result<GaussianInnerFit<S>, GamrsError>,
    ) -> bool {
        <Self as InnerSolver<F, D, S>>::fits(self, rho, None, r)
    }

    open spec fn newton_log_det(&self, mu: Seq<Double>, rho: Seq<Double>, r: Option<Double>) -> bool {
        r is None
    }

    open spec fn tk_inputs(
        &self,
        mu: Seq<Double>,
        beta: Seq<Double>,
        rho: Seq<Double>,
        r: Option<TkKKTInputs>,
    ) -> bool {
        r is None
    }

    fn fit(&self, rho: &Vec<Double>) -> (r: Result<GaussianInnerFit<S>, GamrsError>)
    {
        ArmijoElfInner::fit::<F, D, S>(self, rho)
    }

    fn fit_warm(&self, rho: &Vec<Double>, beta_warm: Option<&Vec<Double>>) -> (r: Result<
        GaussianInnerFit<S>,
        GamrsError,
    >)
    {
        ArmijoElfInner::fit::<F, D, S>(self, rho)
    }

    fn fit_single_irls(&self, rho: &Vec<Double>, beta_warm: Option<&Vec<Double>>) -> (r: Result<
        GaussianInnerFit<S>,
        GamrsError,
    >)
    {
        ArmijoElfInner::fit::<F, D, S>(self, rho)
    }

    fn lazy_newton_log_det_h(&self, fit: &GaussianInnerFit<S>, rho: &Vec<Double>) -> (r: Option<Double>)
    {
        None
    }

    fn lazy_tk_kkt_inputs(&self, fit: &GaussianInnerFit<S>, rho: &Vec<Double>) -> (r: Option<TkKKTInputs>)
    {
        None
    }
}

} // verus!
