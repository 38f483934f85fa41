//! Evaluating the score over smoothing and shape parameters with its derivatives.

use vstd::prelude::*;

use crate::arith::{lawful, plus, Arithmetic};
use crate::double::{lit, one, Double, FIFTY, FIVE};
use crate::error::GamrsError;
use crate::inner::linalg::LinearSolver;
use crate::inner::pirls::curvature::{counted_some, with_outcomes, ObservedPdCounts};
use crate::inner::GaussianInnerFit;
use crate::matrix::Matrix;
use crate::outer::minimize::{Evaluation, ScoreDerivatives, ScoreMemory};
use crate::outer::step::Bounds;
use crate::score::envelope::{lambdas_of, misfit, EnvelopeAcceptedState};
use crate::score::hess_ift::{b1_column, b1_of};
use crate::score::profile::Profile;
use crate::score::shape_aware::builder::ShapeInnerBuilder;
use crate::score::shape_aware::gradient::FrozenBetaCtx;
use crate::score::shape_aware::hessian::{with_block, with_block_of, RhoHessInputs};
use crate::score::shape_aware::level2::{Level1ShapeDerivs, Level2ShapeDerivs};
use crate::score::shape_aware::score::{head, lambdas, tail, ShapeAwareEnvelopeScore};
use crate::traits::{is_square, DenseBackend, Family, Link, ShapeLoss, VarianceFn};

verus! {

broadcast use crate::inner::pirls::curvature::lemma_counted_transitive;

/// What is kept of an accepted point to score trial points from.
pub struct AcceptedState {
    /// Coefficients, their derivatives and the smoothing parameters.
    pub point: EnvelopeAcceptedState,
    /// Shape parameters.
    pub shape_params: Vec<Double>,
}

impl<L: ShapeLoss<K, V>, K: Link, V: VarianceFn, B, P, D: DenseBackend, S: LinearSolver> ShapeAwareEnvelopeScore<
    L,
    K,
    V,
    B,
    P,
    D,
    S,
> {
    /// The second derivatives, as the loss answers.
    pub open spec fn second_read(
        &self,
        fit: GaussianInnerFit<S>,
        family: Family<L, K, V>,
        l: Option<Level2ShapeDerivs>,
    ) -> bool {
        exists|prior: Vec<Double>|
            prior@ == self.prior() && #[trigger] call_ensures(
                <L as ShapeLoss<K, V>>::level2_shape_derivatives,
                (&family.loss, &self.data.y, &fit.eta, &prior),
                l,
            )
    }

    /// The Hessian where shape parameters have no closed-form gradient: from
    /// second derivatives, else from first derivatives, else by differences of the
    /// score. Only the differences evaluate the score, and count what that gives.
    pub open spec fn open_hessian<F: Arithmetic>(
        &self,
        theta: Seq<Double>,
        fit: GaussianInnerFit<S>,
        family: Family<L, K, V>,
        c: FrozenBetaCtx,
        h: Seq<Seq<Double>>,
        before: ObservedPdCounts,
        after: ObservedPdCounts,
    ) -> bool where B: ShapeInnerBuilder<F, D, S, L, K, V>, P: Profile<F, L> {
        exists|l1: Option<Level1ShapeDerivs>| #[trigger]
            self.level1_read(fit, family, None, l1) && match l1 {
                Some(lv1) => exists|l2: Option<Level2ShapeDerivs>| #[trigger]
                    self.second_read(fit, family, l2) && match l2 {
                        Some(lv2) => self.level2_hessian::<F>(
                            fit,
                            family,
                            self.rho_of(theta),
                            lv1,
                            lv2,
                            h,
                        ) && after == before,
                        None => self.ift_hessian::<F>(theta, fit, family, c, h) && after == before,
                    },
                None => self.value_hessian::<F>(theta, h, before, after),
            }
    }

    /// The Hessian before the family's own block is put in: by differences of the
    /// score where the family prefers it, with the coefficients held fixed where
    /// the gradient along the shape parameters is in closed form or there are
    /// none, else as [`ShapeAwareEnvelopeScore::open_hessian`] says.
    pub open spec fn plain_hessian<F: Arithmetic>(
        &self,
        theta: Seq<Double>,
        fit: GaussianInnerFit<S>,
        family: Family<L, K, V>,
        c: FrozenBetaCtx,
        h: Seq<Seq<Double>>,
        before: ObservedPdCounts,
        after: ObservedPdCounts,
    ) -> bool where B: ShapeInnerBuilder<F, D, S, L, K, V>, P: Profile<F, L> {
        exists|full: bool| #[trigger]
            call_ensures(<L as ShapeLoss<K, V>>::prefers_full_fd_hessian, (&family.loss,), full) && if full {
                self.value_hessian::<F>(theta, h, before, after)
            } else if self.n_shape == 0 {
                self.frozen_hessian::<F>(theta, fit, c, h, before, after)
            } else {
                exists|a: Option<Vec<Double>>| #[trigger]
                    self.closed_shape_read(fit, family, fit.deviance, one(), c.phi_center, a) && match a {
                        Some(_) => self.frozen_hessian::<F>(theta, fit, c, h, before, after),
                        None => self.open_hessian::<F>(theta, fit, family, c, h, before, after),
                    }
            }
    }

    /// The family's own block of the shape parameters, as the loss answers.
    pub open spec fn block_read<F: Arithmetic>(
        &self,
        fit: GaussianInnerFit<S>,
        family: Family<L, K, V>,
        c: FrozenBetaCtx,
        b: Option<Matrix>,
    ) -> bool {
        call_ensures(
            <L as ShapeLoss<K, V>>::analytic_shape_score_hessian,
            (
                &family.loss,
                &self.data.y,
                &fit.mu,
                plus::<F>(fit.deviance, c.bsb_total),
                c.n_minus_mp,
                c.phi_center,
            ),
            b,
        )
    }

    /// The joint Hessian at a fit, and the counts before and after it.
    pub open spec fn joint_hessian<F: Arithmetic>(
        &self,
        theta: Seq<Double>,
        fit: GaussianInnerFit<S>,
        family: Family<L, K, V>,
        c: FrozenBetaCtx,
        h: Seq<Seq<Double>>,
        before: ObservedPdCounts,
        after: ObservedPdCounts,
    ) -> bool where B: ShapeInnerBuilder<F, D, S, L, K, V>, P: Profile<F, L> {
        exists|plain: Seq<Seq<Double>>| #[trigger]
            self.plain_hessian::<F>(theta, fit, family, c, plain, before, after) && if self.n_shape == 0 {
                h == plain
            } else {
                exists|b: Option<Matrix>| #[trigger]
                    self.block_read::<F>(fit, family, c, b) && match b {
                        Some(block) => block.square(self.n_shape as nat) && h == with_block_of(
                            plain,
                            self.terms(),
                            block@,
                        ),
                        None => h == plain,
                    }
            }
    }

    /// Why there is no Hessian where shape parameters have no closed-form gradient.
    pub open spec fn open_fails<F: Arithmetic>(
        &self,
        theta: Seq<Double>,
        fit: GaussianInnerFit<S>,
        family: Family<L, K, V>,
        c: FrozenBetaCtx,
        e: GamrsError,
        before: ObservedPdCounts,
        after: ObservedPdCounts,
    ) -> bool where B: ShapeInnerBuilder<F, D, S, L, K, V>, P: Profile<F, L> {
        exists|l1: Option<Level1ShapeDerivs>| #[trigger]
            self.level1_read(fit, family, None, l1) && match l1 {
                Some(lv1) => exists|l2: Option<Level2ShapeDerivs>| #[trigger]
                    self.second_read(fit, family, l2) && match l2 {
                        Some(lv2) => misfit(e) && self.level2_misread::<F>(
                            fit,
                            family,
                            self.rho_of(theta),
                            lv1,
                            lv2,
                        ) && after == before,
                        None => self.ift_fails::<F>(theta, fit, family, c, e) && after == before,
                    },
                None => self.value_hessian_fails::<F>(theta, e, before, after),
            }
    }

    /// Why there is no Hessian before the family's own block is put in.
    pub open spec fn plain_fails<F: Arithmetic>(
        &self,
        theta: Seq<Double>,
        fit: GaussianInnerFit<S>,
        family: Family<L, K, V>,
        c: FrozenBetaCtx,
        e: GamrsError,
        before: ObservedPdCounts,
        after: ObservedPdCounts,
    ) -> bool where B: ShapeInnerBuilder<F, D, S, L, K, V>, P: Profile<F, L> {
        exists|full: bool| #[trigger]
            call_ensures(<L as ShapeLoss<K, V>>::prefers_full_fd_hessian, (&family.loss,), full) && if full {
                self.value_hessian_fails::<F>(theta, e, before, after)
            } else if self.n_shape == 0 {
                self.side_fails::<F>(theta, fit, c, e, before, after)
            } else {
                exists|a: Option<Vec<Double>>| #[trigger]
                    self.closed_shape_read(fit, family, fit.deviance, one(), c.phi_center, a) && match a {
                        Some(_) => self.side_fails::<F>(theta, fit, c, e, before, after),
                        None => self.open_fails::<F>(theta, fit, family, c, e, before, after),
                    }
            }
    }

    /// Why there is no Hessian: a fit or a gradient that it needs could not be had,
    /// or something that was answered has the wrong size.
    pub open spec fn joint_fails<F: Arithmetic>(
        &self,
        theta: Seq<Double>,
        fit: GaussianInnerFit<S>,
        family: Family<L, K, V>,
        c: FrozenBetaCtx,
        e: GamrsError,
        before: ObservedPdCounts,
        after: ObservedPdCounts,
    ) -> bool where B: ShapeInnerBuilder<F, D, S, L, K, V>, P: Profile<F, L> {
        ||| self.plain_fails::<F>(theta, fit, family, c, e, before, after)
        ||| self.n_shape > 0 && misfit(e) && exists|block: Matrix, plain: Seq<Seq<Double>>| #[trigger]
            self.block_read::<F>(fit, family, c, Some(block)) && !block.square(self.n_shape as nat)
                && #[trigger] self.plain_hessian::<F>(theta, fit, family, c, plain, before, after)
    }

    fn hessian_without_closed_gradient<F: Arithmetic>(
        &self,
        theta: &Vec<Double>,
        fit: &GaussianInnerFit<S>,
        family: &Family<L, K, V>,
        c: &FrozenBetaCtx,
        counts: &mut ObservedPdCounts,
    ) -> (r: Result<Matrix, GamrsError>) where
        B: ShapeInnerBuilder<F, D, S, L, K, V>,
        P: Profile<F, L>,

        requires
            lawful::<F>(),
            self.wf(),
            self.sized(*fit),
            c.fits(self.terms()),
            theta@.len() == self.axes(),
        ensures
            match r {
                Ok(h) => h.square(self.axes()) && self.open_hessian::<F>(
                    theta@,
                    *fit,
                    *family,
                    *c,
                    h@,
                    *old(counts),
                    *final(counts),
                ),
                Err(e) => self.open_fails::<F>(
                    theta@,
                    *fit,
                    *family,
                    *c,
                    e,
                    *old(counts),
                    *final(counts),
                ),
            },
            counted_some(self.data.observed_on, *old(counts), *final(counts)),
    {
        proof {
            assert(with_outcomes(*counts, Seq::<bool>::empty()) == *counts);
        }
        let prior: Vec<Double> = self.prior_weights();
        let l1: Option<Level1ShapeDerivs> = family.loss.level1_shape_derivatives(
            &self.data.y,
            &fit.eta,
            &prior,
        );
        assert(self.level1_read(*fit, *family, None, l1));
        match l1 {
            Some(lv1) => {
                let l2: Option<Level2ShapeDerivs> = family.loss.level2_shape_derivatives(
                    &self.data.y,
                    &fit.eta,
                    &prior,
                );
                assert(self.second_read(*fit, *family, l2));
                match l2 {
                    Some(lv2) => self.hess_via_ift_level2::<F>(theta, fit, family, &lv1, &lv2),
                    None => self.hess_via_ift_analytic::<F>(theta, fit, family, c),
                }
            },
            None => self.hess_via_fd_on_value::<F>(theta, counts),
        }
    }

    fn hessian_by_preference<F: Arithmetic>(
        &self,
        theta: &Vec<Double>,
        fit: &GaussianInnerFit<S>,
        family: &Family<L, K, V>,
        c: &FrozenBetaCtx,
        counts: &mut ObservedPdCounts,
    ) -> (r: Result<Matrix, GamrsError>) where
        B: ShapeInnerBuilder<F, D, S, L, K, V>,
        P: Profile<F, L>,

        requires
            lawful::<F>(),
            self.wf(),
            self.sized(*fit),
            c.fits(self.terms()),
            theta@.len() == self.axes(),
        ensures
            match r {
                Ok(h) => h.square(self.axes()) && self.plain_hessian::<F>(
                    theta@,
                    *fit,
                    *family,
                    *c,
                    h@,
                    *old(counts),
                    *final(counts),
                ),
                Err(e) => self.plain_fails::<F>(
                    theta@,
                    *fit,
                    *family,
                    *c,
                    e,
                    *old(counts),
                    *final(counts),
                ),
            },
            counted_some(self.data.observed_on, *old(counts), *final(counts)),
    {
        proof {
            assert(with_outcomes(*counts, Seq::<bool>::empty()) == *counts);
        }
        let full: bool = family.loss.prefers_full_fd_hessian();
        if full {
            return self.hess_via_fd_on_value::<F>(theta, counts);
        }
        if self.n_shape == 0 {
            return self.hess_via_fd_frozen_beta::<F>(theta, fit, c, counts);
        }
        let a: Option<Vec<Double>> = family.loss.analytic_shape_score_gradient(
            &self.data.y,
            &fit.mu,
            fit.deviance,
            one(),
            c.phi_center,
        );
        assert(self.closed_shape_read(*fit, *family, fit.deviance, one(), c.phi_center, a));
        match a {
            Some(_) => self.hess_via_fd_frozen_beta::<F>(theta, fit, c, counts),
            None => self.hessian_without_closed_gradient::<F>(theta, fit, family, c, counts),
        }
    }

    /// Score, gradient and Hessian at a point come from a fit there, and are counted
    /// in this order.
    pub open spec fn evaluated_there<F: Arithmetic>(
        &self,
        theta: Seq<Double>,
        ev: Evaluation,
        before: ObservedPdCounts,
        after: ObservedPdCounts,
    ) -> bool where B: ShapeInnerBuilder<F, D, S, L, K, V>, P: Profile<F, L> {
        exists|
            fit: GaussianInnerFit<S>,
            family: Family<L, K, V>,
            c: FrozenBetaCtx,
            t: ObservedPdCounts,
            u: ObservedPdCounts,
        |
            self.fitted_at::<F>(theta, fit, family) && self.scores_counted::<F>(
                fit,
                family,
                self.rho_of(theta),
                ev.value,
                before,
                t,
            ) && #[trigger] self.grad_there::<F>(theta, fit, family, None, c, ev.grad@, t, u)
                && self.joint_hessian::<F>(theta, fit, family, c, ev.hess@, u, after)
    }

    /// A fit at a point failed, or its gradient did, or its Hessian once score and
    /// gradient were counted.
    pub open spec fn evaluation_fails<F: Arithmetic>(
        &self,
        theta: Seq<Double>,
        e: GamrsError,
        before: ObservedPdCounts,
        after: ObservedPdCounts,
    ) -> bool where B: ShapeInnerBuilder<F, D, S, L, K, V>, P: Profile<F, L> {
        ||| self.value_grad_fails::<F>(theta, e, before, after)
        ||| exists|
            fit: GaussianInnerFit<S>,
            family: Family<L, K, V>,
            v: Double,
            c: FrozenBetaCtx,
            g: Seq<Double>,
            t: ObservedPdCounts,
            u: ObservedPdCounts,
        |
            self.fitted_at::<F>(theta, fit, family) && #[trigger] self.scores_counted::<F>(
                fit,
                family,
                self.rho_of(theta),
                v,
                before,
                t,
            ) && #[trigger] self.grad_there::<F>(theta, fit, family, None, c, g, t, u)
                && self.joint_fails::<F>(theta, fit, family, c, e, u, after)
    }

    /// Score, joint gradient and joint Hessian at a point.
    pub fn compute_value_grad_hess_analytical<F: Arithmetic>(&self, theta: &Vec<Double>, counts: &mut ObservedPdCounts) -> (r: Result<
        Evaluation,
        GamrsError,
    >) where B: ShapeInnerBuilder<F, D, S, L, K, V>, P: Profile<F, L>
        requires
            lawful::<F>(),
            self.wf(),
            theta@.len() == self.axes(),
        ensures
            match r {
                Ok(ev) => self.evaluated_there::<F>(theta@, ev, *old(counts), *final(counts))
                    && ev.fits(self.axes()),
                Err(e) => self.evaluation_fails::<F>(theta@, e, *old(counts), *final(counts)),
            },
            counted_some(self.data.observed_on, *old(counts), *final(counts)),
    {
        proof {
            assert(with_outcomes(*counts, Seq::<bool>::empty()) == *counts);
        }
        let m: usize = self.data.s_list.len();
        let (fit, family) = match self.fit_inner_at::<F>(theta) {
            Ok(out) => out,
            Err(e) => return Err(e),
        };
        assert(self.fitted_at::<F>(theta@, fit, family));
        let rho: Vec<Double> = head(theta, m);
        let value: Double = self.score_value::<F>(&fit, &family, &rho, counts);
        let ghost t = *counts;
        assert(self.scores_counted::<F>(
            fit,
            family,
            self.rho_of(theta@),
            value,
            *old(counts),
            t,
        ));
        let (grad, c) = match self.eval_grad_with_fit::<F>(theta, &fit, &family, counts) {
            Ok(out) => out,
            Err(e) => return Err(e),
        };
        let ghost u = *counts;
        assert(self.grad_there::<F>(theta@, fit, family, None, c, grad@, t, u));
        let plain: Matrix = match self.hessian_by_preference::<F>(theta, &fit, &family, &c, counts) {
            Ok(h) => h,
            Err(e) => {
                assert(self.joint_fails::<F>(theta@, fit, family, c, e, u, *counts));
                return Err(e);
            },
        };
        assert(self.plain_hessian::<F>(theta@, fit, family, c, plain@, u, *counts));
        let hess: Matrix = if self.n_shape == 0 {
            plain
        } else {
            let dp: Double = plus::<F>(fit.deviance, c.bsb_total);
            let b: Option<Matrix> = family.loss.analytic_shape_score_hessian(
                &self.data.y,
                &fit.mu,
                dp,
                c.n_minus_mp,
                c.phi_center,
            );
            assert(self.block_read::<F>(fit, family, c, b));
            match b {
                Some(block) => {
                    if !is_square(&block, self.n_shape) {
                        let e: GamrsError = GamrsError::InvalidParameter(
                            "fit has the wrong size".to_owned(),
                        );
                        assert(self.joint_fails::<F>(theta@, fit, family, c, e, u, *counts));
                        return Err(e);
                    }
                    with_block(&plain, m, &block)
                },
                None => plain,
            }
        };
        assert(self.joint_hessian::<F>(theta@, fit, family, c, hess@, u, *counts));
        let ev: Evaluation = Evaluation { value, grad, hess };
        assert(self.grad_there::<F>(theta@, fit, family, None, c, ev.grad@, t, u));
        Ok(ev)
    }

    /// Score, gradient and Hessian along the log smoothing parameters alone, from a
    /// fit at a point.
    pub open spec fn rho_evaluated<F: Arithmetic>(
        &self,
        theta: Seq<Double>,
        fit: GaussianInnerFit<S>,
        family: Family<L, K, V>,
        q: RhoHessInputs,
        lambda: Vec<Double>,
        c: FrozenBetaCtx,
        ev: Evaluation,
    ) -> bool where B: ShapeInnerBuilder<F, D, S, L, K, V>, P: Profile<F, L> {
        let rho = self.rho_of(theta);
        &&& self.fitted_at::<F>(theta, fit, family)
        &&& self.scores::<F>(fit, family, rho, ev.value)
        &&& self.ctx_of::<F>(fit, family, rho, c)
        &&& self.rho_gradient::<F>(
            fit,
            family,
            rho,
            c.bsb_per_term@,
            c.tr_hinv_s_per_term@,
            c.phi_center,
            ev.grad@,
        )
        &&& lambda@ == lambdas_of::<F>(rho)
        &&& self.rho_inputs_read::<F>(fit, family, rho, q)
        &&& ev.hess@ == self.rho_ctx(&fit, &q, &lambda, c.phi_center).hessian::<F>()
        &&& ev.fits(self.terms())
    }

    /// The state kept of a point, where the family allows it.
    pub open spec fn kept<F: Arithmetic>(
        &self,
        theta: Seq<Double>,
        fit: GaussianInnerFit<S>,
        family: Family<L, K, V>,
        q: RhoHessInputs,
        lambda: Seq<Double>,
        before: Option<AcceptedState>,
        after: Option<AcceptedState>,
    ) -> bool {
        exists|allowed: bool| #[trigger]
            call_ensures(L::allows_no_refresh, (&family.loss,), allowed) && if allowed {
                after matches Some(st) && st.point.beta@ == fit.beta@ && st.point.lambda@ == lambda
                    && st.shape_params@ == theta.skip(self.terms() as int) && st.point.b1@.len()
                    == self.terms() && forall|k: int|
                    0 <= k < self.terms() ==> (#[trigger] st.point.b1@[k])@ == b1_of::<F>(
                        self.data.s_list@,
                        lambda,
                        q.a_inv@,
                        fit.beta@,
                        k,
                    )
            } else {
                after == before
            }
    }

    /// The evaluation along the log smoothing parameters alone, with the fit and
    /// what is kept of it.
    pub open spec fn rho_only<F: Arithmetic>(
        &self,
        theta: Seq<Double>,
        ev: Evaluation,
        fit: GaussianInnerFit<S>,
        before: Option<AcceptedState>,
        after: Option<AcceptedState>,
    ) -> bool where B: ShapeInnerBuilder<F, D, S, L, K, V>, P: Profile<F, L> {
        exists|family: Family<L, K, V>, q: RhoHessInputs, lambda: Vec<Double>, c: FrozenBetaCtx| #[trigger]
            self.rho_evaluated::<F>(theta, fit, family, q, lambda, c, ev) && self.kept::<F>(
                theta,
                fit,
                family,
                q,
                lambda@,
                before,
                after,
            )
    }

    /// The evaluation along the log smoothing parameters alone, from some fit.
    pub open spec fn rho_only_there<F: Arithmetic>(
        &self,
        theta: Seq<Double>,
        ev: Evaluation,
        before: Option<AcceptedState>,
        after: Option<AcceptedState>,
    ) -> bool where B: ShapeInnerBuilder<F, D, S, L, K, V>, P: Profile<F, L> {
        exists|fit: GaussianInnerFit<S>| #[trigger] self.rho_only::<F>(theta, ev, fit, before, after)
    }

    /// A fit at a point failed, or its gradient or block did once the score was
    /// counted.
    pub open spec fn rho_only_fails<F: Arithmetic>(
        &self,
        theta: Seq<Double>,
        e: GamrsError,
        before: ObservedPdCounts,
        after: ObservedPdCounts,
    ) -> bool where B: ShapeInnerBuilder<F, D, S, L, K, V>, P: Profile<F, L> {
        ||| self.unfitted::<F>(theta, e) && after == before
        ||| exists|fit: GaussianInnerFit<S>, family: Family<L, K, V>, v: Double|
            self.fitted_at::<F>(theta, fit, family) && #[trigger] self.scores_counted::<F>(
                fit,
                family,
                self.rho_of(theta),
                v,
                before,
                after,
            ) && misfit(e) && (self.rho_misread::<F>(
                fit,
                family,
                self.rho_of(theta),
            ) || self.inverse_misread::<F>(fit, family, self.rho_of(theta)))
    }

    fn keep<F: Arithmetic>(
        &self,
        theta: &Vec<Double>,
        fit: &GaussianInnerFit<S>,
        family: &Family<L, K, V>,
        q: &RhoHessInputs,
        lambda: &Vec<Double>,
        before: Option<AcceptedState>,
    ) -> (after: Option<AcceptedState>)
        requires
            lawful::<F>(),
            self.wf(),
            self.sized(*fit),
            theta@.len() == self.axes(),
            lambda@.len() == self.terms(),
            q.a_inv.square(fit.p as nat),
        ensures
            self.kept::<F>(theta@, *fit, *family, *q, lambda@, before, after),
    {
        let m: usize = self.data.s_list.len();
        let allowed: bool = family.loss.allows_no_refresh();
        if !allowed {
            return before;
        }
        let mut b1: Vec<Vec<Double>> = Vec::new();
        for k in 0..m
            invariant
                lawful::<F>(),
                self.wf(),
                self.sized(*fit),
                m == self.terms(),
                lambda@.len() == m,
                q.a_inv.square(fit.p as nat),
                b1@.len() == k,
                forall|i: int|
                    0 <= i < k ==> (#[trigger] b1@[i])@ == b1_of::<F>(
                        self.data.s_list@,
                        lambda@,
                        q.a_inv@,
                        fit.beta@,
                        i,
                    ),
        {
            b1.push(b1_column::<F>(&self.data.s_list, lambda, &q.a_inv, &fit.beta, k));
        }
        let beta: Vec<Double> = fit.beta.clone();
        assert(beta@ =~= fit.beta@);
        let lam: Vec<Double> = lambda.clone();
        assert(lam@ =~= lambda@);
        let shape_params: Vec<Double> = tail(theta, m);
        Some(
            AcceptedState {
                point: EnvelopeAcceptedState { beta, b1, lambda: lam },
                shape_params,
            },
        )
    }

    /// Score, gradient and Hessian along the log smoothing parameters alone, the
    /// fit they come from, and what is kept of it.
    pub fn compute_value_grad_hess_rho_only_with_fit<F: Arithmetic>(
        &self,
        theta: &Vec<Double>,
        before: Option<AcceptedState>,
        counts: &mut ObservedPdCounts,
    ) -> (r: Result<(Evaluation, GaussianInnerFit<S>, Option<AcceptedState>), GamrsError>) where
        B: ShapeInnerBuilder<F, D, S, L, K, V>,
        P: Profile<F, L>,

        requires
            lawful::<F>(),
            self.wf(),
            theta@.len() == self.axes(),
        ensures
            match r {
                Ok(out) => self.rho_only::<F>(theta@, out.0, out.1, before, out.2)
                    && self.value_counted::<F>(
                    theta@,
                    out.0.value,
                    *old(counts),
                    *final(counts),
                ),
                Err(e) => self.rho_only_fails::<F>(theta@, e, *old(counts), *final(counts)),
            },
            counted_some(self.data.observed_on, *old(counts), *final(counts)),
    {
        proof {
            assert(with_outcomes(*counts, Seq::<bool>::empty()) == *counts);
        }
        let (fit, family) = match self.fit_inner_at::<F>(theta) {
            Ok(out) => out,
            Err(e) => return Err(e),
        };
        assert(self.fitted_at::<F>(theta@, fit, family));
        let rho: Vec<Double> = head(theta, self.data.s_list.len());
        let value: Double = self.score_value::<F>(&fit, &family, &rho, counts);
        let c: FrozenBetaCtx = self.context::<F>(&fit, &family, &rho);
        let grad: Vec<Double> = match self.compute_rho_envelope_gradient::<F>(
            &fit,
            &family,
            &rho,
            &c.bsb_per_term,
            &c.tr_hinv_s_per_term,
            c.phi_center,
        ) {
            Ok(g) => g,
            Err(e) => return Err(e),
        };
        let lambda: Vec<Double> = lambdas::<F>(&rho);
        let (hess, q) = match self.rho_hessian::<F>(&fit, &family, &rho, &lambda, c.phi_center) {
            Ok(out) => out,
            Err(e) => return Err(e),
        };
        let after: Option<AcceptedState> = self.keep::<F>(
            theta,
            &fit,
            &family,
            &q,
            &lambda,
            before,
        );
        let ev: Evaluation = Evaluation { value, grad, hess };
        assert(self.rho_evaluated::<F>(theta@, fit, family, q, lambda, c, ev));
        Ok((ev, fit, after))
    }

    /// Score, gradient and Hessian along the log smoothing parameters alone, and
    /// what is kept of the fit.
    pub fn compute_value_grad_hess_rho_only<F: Arithmetic>(
        &self,
        theta: &Vec<Double>,
        before: Option<AcceptedState>,
        counts: &mut ObservedPdCounts,
    ) -> (r: Result<(Evaluation, Option<AcceptedState>), GamrsError>) where
        B: ShapeInnerBuilder<F, D, S, L, K, V>,
        P: Profile<F, L>,

        requires
            lawful::<F>(),
            self.wf(),
            theta@.len() == self.axes(),
        ensures
            match r {
                Ok(out) => self.rho_only_there::<F>(theta@, out.0, before, out.1)
                    && self.value_counted::<F>(
                    theta@,
                    out.0.value,
                    *old(counts),
                    *final(counts),
                ),
                Err(e) => self.rho_only_fails::<F>(theta@, e, *old(counts), *final(counts)),
            },
            counted_some(self.data.observed_on, *old(counts), *final(counts)),
    {
        proof {
            assert(with_outcomes(*counts, Seq::<bool>::empty()) == *counts);
        }
        match self.compute_value_grad_hess_rho_only_with_fit::<F>(theta, before, counts) {
            Ok(out) => {
                let (ev, fit, after) = out;
                let kept: (Evaluation, Option<AcceptedState>) = (ev, after);
                assert(self.rho_only::<F>(theta@, kept.0, fit, before, kept.1));
                assert(self.rho_only_there::<F>(theta@, kept.0, before, kept.1));
                Ok(kept)
            },
            Err(e) => Err(e),
        }
    }

    /// Largest step on each axis: 5 for a log smoothing parameter, as the family
    /// says for a shape parameter.
    pub open spec fn caps_of(&self, caps: Seq<Double>) -> bool {
        exists|own: Vec<Double>| #[trigger]
            call_ensures(
                <L as ShapeLoss<K, V>>::shape_axis_step_caps,
                (&self.family_base.loss,),
                own,
            ) && caps == Seq::new(self.terms(), |j: int| lit(FIVE)) + own@
    }

    /// Bounds of each axis: -50 to 50 for a log smoothing parameter, as the family
    /// says for a shape parameter.
    pub open spec fn bounds_of(&self, bnds: Seq<(Double, Double)>) -> bool {
        exists|own: Vec<(Double, Double)>| #[trigger]
            call_ensures(<L as ShapeLoss<K, V>>::shape_axis_bounds, (&self.family_base.loss,), own)
                && bnds == Seq::new(self.terms(), |j: int| (lit(FIFTY).neg_spec(), lit(FIFTY))) + own@
    }

    /// Largest step on each axis.
    pub fn axis_step_caps(&self) -> (caps: Vec<Double>)
        ensures
            self.caps_of(caps@),
    {
        let mut caps: Vec<Double> = Vec::new();
        for j in 0..self.data.s_list.len()
            invariant
                caps@.len() == j,
                forall|k: int| 0 <= k < j ==> #[trigger] caps@[k] == lit(FIVE),
        {
            caps.push(lit(FIVE));
        }
        let ghost front = caps@;
        assert(front =~= Seq::new(self.terms(), |j: int| lit(FIVE)));
        let own: Vec<Double> = self.family_base.loss.shape_axis_step_caps();
        let ghost answered = own;
        let mut rest: Vec<Double> = own;
        caps.append(&mut rest);
        assert(call_ensures(
            <L as ShapeLoss<K, V>>::shape_axis_step_caps,
            (&self.family_base.loss,),
            answered,
        ));
        assert(caps@ =~= front + answered@);
        caps
    }

    /// Bounds of each axis.
    pub fn axis_bounds(&self) -> (bnds: Bounds)
        ensures
            self.bounds_of(bnds@),
    {
        let mut bnds: Bounds = Vec::new();
        for j in 0..self.data.s_list.len()
            invariant
                bnds@.len() == j,
                forall|k: int|
                    0 <= k < j ==> #[trigger] bnds@[k] == (lit(FIFTY).neg_spec(), lit(FIFTY)),
        {
            bnds.push((lit(FIFTY).neg(), lit(FIFTY)));
        }
        let ghost front = bnds@;
        assert(front =~= Seq::new(self.terms(), |j: int| (lit(FIFTY).neg_spec(), lit(FIFTY))));
        let own: Vec<(Double, Double)> = self.family_base.loss.shape_axis_bounds();
        let ghost answered = own;
        let mut rest: Vec<(Double, Double)> = own;
        bnds.append(&mut rest);
        assert(call_ensures(
            <L as ShapeLoss<K, V>>::shape_axis_bounds,
            (&self.family_base.loss,),
            answered,
        ));
        assert(bnds@ =~= front + answered@);
        bnds
    }
}

impl<
    F: Arithmetic,
    L: ShapeLoss<K, V>,
    K: Link,
    V: VarianceFn,
    B: ShapeInnerBuilder<F, D, S, L, K, V>,
    P: Profile<F, L>,
    D: DenseBackend,
    S: LinearSolver,
> ScoreDerivatives<F> for ShapeAwareEnvelopeScore<L, K, V, B, P, D, S> {
    type Accepted = AcceptedState;

    open spec fn ready(&self) -> bool {
        lawful::<F>() && self.wf()
    }

    open spec fn takes(&self, n: nat) -> bool {
        n == self.axes()
    }

    /// The score of a fit at the point; nothing new is remembered but the outcome
    /// of the observed curvature.
    open spec fn values(
        &self,
        memory: ScoreMemory<AcceptedState>,
        theta: Seq<Double>,
        r: Result<Double, GamrsError>,
        after: ScoreMemory<AcceptedState>,
    ) -> bool {
        &&& after.accepted == memory.accepted
        &&& after.stats == memory.stats
        &&& match r {
            Ok(v) => self.value_counted::<F>(theta, v, memory.observed, after.observed),
            Err(e) => self.unfitted::<F>(theta, e) && after.observed == memory.observed,
        }
    }

    /// The score of a fit at the point with its joint derivatives; nothing new is
    /// remembered but the outcomes of the observed curvature.
    open spec fn evaluates(
        &self,
        memory: ScoreMemory<AcceptedState>,
        theta: Seq<Double>,
        r: Result<Evaluation, GamrsError>,
        after: ScoreMemory<AcceptedState>,
    ) -> bool {
        &&& after.accepted == memory.accepted
        &&& after.stats == memory.stats
        &&& counted_some(self.data.observed_on, memory.observed, after.observed)
        &&& match r {
            Ok(ev) => self.evaluated_there::<F>(theta, ev, memory.observed, after.observed)
                && ev.fits(self.axes()),
            Err(e) => self.evaluation_fails::<F>(theta, e, memory.observed, after.observed),
        }
    }

    open spec fn limited(&self, caps: Option<Vec<Double>>, bnds: Option<Bounds>) -> bool {
        &&& caps matches Some(c) && self.caps_of(c@)
        &&& bnds matches Some(b) && self.bounds_of(b@)
    }

    fn value(&self, memory: ScoreMemory<AcceptedState>, theta: &Vec<Double>) -> (r: (Result<
        Double,
        GamrsError,
    >, ScoreMemory<AcceptedState>)) {
        let mut observed: ObservedPdCounts = memory.observed;
        let r: Result<Double, GamrsError> = self.compute_value::<F>(theta, &mut observed);
        (r, ScoreMemory { accepted: memory.accepted, stats: memory.stats, observed })
    }

    fn value_grad_hess(&self, memory: ScoreMemory<AcceptedState>, theta: &Vec<Double>) -> (r: (Result<
        Evaluation,
        GamrsError,
    >, ScoreMemory<AcceptedState>)) {
        let mut observed: ObservedPdCounts = memory.observed;
        let r: Result<Evaluation, GamrsError> = self.compute_value_grad_hess_analytical::<F>(
            theta,
            &mut observed,
        );
        (r, ScoreMemory { accepted: memory.accepted, stats: memory.stats, observed })
    }

    fn axis_limits(&self) -> (r: (Option<Vec<Double>>, Option<Bounds>)) {
        (Some(self.axis_step_caps()), Some(self.axis_bounds()))
    }
}

} // verus!
