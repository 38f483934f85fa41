//! The joint gradient over smoothing and shape parameters: at a fit, at a point,
//! and with the coefficients held fixed.

use vstd::prelude::*;

use crate::arith::{count, lawful, minus, plus, Arithmetic};
use crate::dense::dot;
use crate::double::{lit, one, Double, E_M5};
use crate::error::GamrsError;
use crate::inner::linalg::LinearSolver;
use crate::inner::pirls::curvature::{counted_some, with_outcomes, ObservedPdCounts};
use crate::inner::GaussianInnerFit;
use crate::outer::minimize::says;
use crate::score::envelope::{
    bsb_of, central, central_of, lambdas_of, misfit, shift, shifted, weighted_of,
};
use crate::score::profile::{n_minus_mp_of, DispersionInputs, Profile};
use crate::score::shape_aware::builder::ShapeInnerBuilder;
use crate::score::shape_aware::level2::Level1ShapeDerivs;
use crate::score::shape_aware::score::{head, lambdas, points_of, ShapeAwareEnvelopeScore};
use crate::traits::{DenseBackend, Family, Link, ShapeLoss, VarianceFn};

verus! {

broadcast use crate::inner::pirls::curvature::lemma_counted_transitive;

/// What is kept of a fit to evaluate gradients near it with the coefficients held
/// fixed.
pub struct FrozenBetaCtx {
    /// Quadratic penalties.
    pub bsb_per_term: Vec<Double>,
    /// `tr(A^-1 S_j)`.
    pub tr_hinv_s_per_term: Vec<Double>,
    /// `sum_j lambda_j b'S_j b`.
    pub bsb_total: Double,
    /// Dispersion at the fit.
    pub phi_center: Double,
    /// `n - Mp`.
    pub n_minus_mp: Double,
    /// Deviance.
    pub deviance: Double,
}

impl FrozenBetaCtx {
    /// One entry for each of `m` terms.
    pub open spec fn fits(&self, m: nat) -> bool {
        self.bsb_per_term@.len() == m && self.tr_hinv_s_per_term@.len() == m
    }
}

/// The value, or another where there is none.
pub open spec fn or_else(x: Option<Double>, other: Double) -> Double {
    match x {
        Some(v) => v,
        None => other,
    }
}

/// An error about a family that has no gradient along its shape parameters.
pub open spec fn no_shape_gradient(e: GamrsError) -> bool {
    says(e, "family has no gradient along its shape parameters"@)
}

impl<L: ShapeLoss<K, V>, K: Link, V: VarianceFn, B, P, D: DenseBackend, S: LinearSolver> ShapeAwareEnvelopeScore<
    L,
    K,
    V,
    B,
    P,
    D,
    S,
> {
    /// The traces of the terms, as the solver answers.
    pub open spec fn traces_read(&self, fit: GaussianInnerFit<S>, tr: Seq<Double>) -> bool {
        &&& tr.len() == self.terms()
        &&& forall|j: int|
            0 <= j < self.terms() ==> call_ensures(
                S::trace_a_inv,
                (&fit.a_factor, &self.data.s_list@[j]),
                #[trigger] tr[j],
            )
    }

    /// The traces of the terms.
    pub fn traces(&self, fit: &GaussianInnerFit<S>) -> (tr: Vec<Double>)
        ensures
            self.traces_read(*fit, tr@),
    {
        let mut tr: Vec<Double> = Vec::new();
        for j in 0..self.data.s_list.len()
            invariant
                tr@.len() == j,
                forall|k: int|
                    0 <= k < j ==> call_ensures(
                        S::trace_a_inv,
                        (&fit.a_factor, &self.data.s_list@[k]),
                        #[trigger] tr@[k],
                    ),
        {
            tr.push(fit.trace_a_inv(&self.data.s_list[j]));
        }
        tr
    }

    /// The dispersion of a family at a fit for a weighted penalty, or another
    /// value where the fit is not physical.
    pub open spec fn phi_read<F: Arithmetic>(
        &self,
        fit: GaussianInnerFit<S>,
        family: Family<L, K, V>,
        bsb_total: Double,
        other: Double,
        phi: Double,
    ) -> bool where P: Profile<F, L> {
        exists|x: Option<Double>| #[trigger]
            self.profile.disperses(
                family.loss,
                fit.n,
                fit.deviance,
                self.dispersion_inputs::<F>(bsb_total),
                x,
            ) && phi == or_else(x, other)
    }

    /// The dispersion of a family at a fit for a weighted penalty, or another
    /// value where the fit is not physical.
    pub fn phi_at<F: Arithmetic>(
        &self,
        fit: &GaussianInnerFit<S>,
        family: &Family<L, K, V>,
        bsb_total: Double,
        other: Double,
    ) -> (phi: Double) where P: Profile<F, L>
        requires
            lawful::<F>(),
            self.sized(*fit),
        ensures
            self.phi_read::<F>(*fit, *family, bsb_total, other, phi),
    {
        let x: DispersionInputs = DispersionInputs {
            lambda: one(),
            bsb: bsb_total,
            tr_hinv_xtwx: count::<F>(fit.p),
            mp: self.mp,
        };
        assert(x == self.dispersion_inputs::<F>(bsb_total));
        let d: Option<Double> = self.profile.dispersion(&family.loss, fit, x);
        assert(self.profile.disperses(
            family.loss,
            fit.n,
            fit.deviance,
            self.dispersion_inputs::<F>(bsb_total),
            d,
        ));
        match d {
            Some(v) => v,
            None => other,
        }
    }

    /// What is kept of a fit.
    pub open spec fn ctx_of<F: Arithmetic>(
        &self,
        fit: GaussianInnerFit<S>,
        family: Family<L, K, V>,
        rho: Seq<Double>,
        c: FrozenBetaCtx,
    ) -> bool where P: Profile<F, L> {
        &&& c.bsb_per_term@ == bsb_of::<F>(self.data.s_list@, fit.beta@)
        &&& self.traces_read(fit, c.tr_hinv_s_per_term@)
        &&& c.bsb_total == self.bsb_total_of::<F>(rho, fit.beta@)
        &&& self.phi_read::<F>(fit, family, c.bsb_total, one(), c.phi_center)
        &&& c.n_minus_mp == n_minus_mp_of::<F>(fit.n, self.mp)
        &&& c.deviance == fit.deviance
    }

    /// What is kept of a fit.
    pub fn context<F: Arithmetic>(&self, fit: &GaussianInnerFit<S>, family: &Family<L, K, V>, rho: &Vec<Double>) -> (c: FrozenBetaCtx) where
        P: Profile<F, L>,

        requires
            lawful::<F>(),
            self.wf(),
            self.sized(*fit),
            rho@.len() == self.terms(),
        ensures
            self.ctx_of::<F>(*fit, *family, rho@, c),
            c.fits(self.terms()),
    {
        let bsb: Vec<Double> = self.penalties::<F>(&fit.beta);
        let tr: Vec<Double> = self.traces(fit);
        let lambda: Vec<Double> = lambdas::<F>(rho);
        let bsb_total: Double = dot::<F>(&lambda, &bsb);
        let phi: Double = self.phi_at::<F>(fit, family, bsb_total, one());
        FrozenBetaCtx {
            bsb_per_term: bsb,
            tr_hinv_s_per_term: tr,
            bsb_total,
            phi_center: phi,
            n_minus_mp: minus::<F>(count::<F>(fit.n), count::<F>(self.mp)),
            deviance: fit.deviance,
        }
    }

    /// The closed-form gradient along the shape parameters, as the loss answers.
    pub open spec fn closed_shape_read(
        &self,
        fit: GaussianInnerFit<S>,
        family: Family<L, K, V>,
        dp: Double,
        n_minus_mp: Double,
        phi: Double,
        a: Option<Vec<Double>>,
    ) -> bool {
        call_ensures(
            <L as ShapeLoss<K, V>>::analytic_shape_score_gradient,
            (&family.loss, &self.data.y, &fit.mu, dp, n_minus_mp, phi),
            a,
        )
    }

    /// The first derivatives: those given, else as the loss answers.
    pub open spec fn level1_read(
        &self,
        fit: GaussianInnerFit<S>,
        family: Family<L, K, V>,
        given: Option<&Level1ShapeDerivs>,
        l: Option<Level1ShapeDerivs>,
    ) -> bool {
        match given {
            Some(g) => l == Some(*g),
            None => exists|prior: Vec<Double>|
                prior@ == self.prior() && #[trigger] call_ensures(
                    <L as ShapeLoss<K, V>>::level1_shape_derivatives,
                    (&family.loss, &self.data.y, &fit.eta, &prior),
                    l,
                ),
        }
    }

    /// The points on both sides of a point along one axis.
    pub open spec fn sides<F: Arithmetic>(&self, theta: Seq<Double>, i: int, eps: Double) -> Seq<Seq<Double>> {
        seq![shifted::<F>(theta, i, eps, true), shifted::<F>(theta, i, eps, false)]
    }

    /// A central difference of the score along one axis.
    pub open spec fn slope_there<F: Arithmetic>(
        &self,
        theta: Seq<Double>,
        i: int,
        eps: Double,
        s: Double,
        before: ObservedPdCounts,
        after: ObservedPdCounts,
    ) -> bool where B: ShapeInnerBuilder<F, D, S, L, K, V>, P: Profile<F, L> {
        exists|v: Seq<Double>| #[trigger]
            self.values_there::<F>(self.sides::<F>(theta, i, eps), v, before, after) && s
                == central_of::<F>(v[0], v[1], eps)
    }

    /// Central differences of the score along the first `n` shape parameters, one
    /// after the other.
    pub open spec fn slopes_there<F: Arithmetic>(
        &self,
        theta: Seq<Double>,
        n: nat,
        g: Seq<Double>,
        before: ObservedPdCounts,
        after: ObservedPdCounts,
    ) -> bool where B: ShapeInnerBuilder<F, D, S, L, K, V>, P: Profile<F, L>
        decreases n,
    {
        &&& g.len() == n
        &&& if n == 0 {
            after == before
        } else {
            exists|mid: ObservedPdCounts|
                self.slopes_there::<F>(theta, (n - 1) as nat, g.drop_last(), before, mid)
                    && #[trigger] self.slope_there::<F>(
                    theta,
                    self.terms() + n - 1,
                    lit(E_M5),
                    g.last(),
                    mid,
                    after,
                )
        }
    }

    /// The gradient along the shape parameters by central differences of the
    /// score.
    pub open spec fn shape_differences<F: Arithmetic>(
        &self,
        theta: Seq<Double>,
        g: Seq<Double>,
        before: ObservedPdCounts,
        after: ObservedPdCounts,
    ) -> bool where B: ShapeInnerBuilder<F, D, S, L, K, V>, P: Profile<F, L> {
        self.slopes_there::<F>(theta, self.n_shape as nat, g, before, after)
    }

    /// A fit at a point shifted along one of the shape parameters failed, after the
    /// differences along those before it were had.
    pub open spec fn shape_differences_fail<F: Arithmetic>(
        &self,
        theta: Seq<Double>,
        e: GamrsError,
        before: ObservedPdCounts,
        after: ObservedPdCounts,
    ) -> bool where B: ShapeInnerBuilder<F, D, S, L, K, V>, P: Profile<F, L> {
        exists|k: nat, g: Seq<Double>, mid: ObservedPdCounts|
            k < self.n_shape && #[trigger] self.slopes_there::<F>(theta, k, g, before, mid)
                && self.values_fail::<F>(
                self.sides::<F>(theta, (self.terms() + k) as int, lit(E_M5)),
                e,
                mid,
                after,
            )
    }

    fn shape_by_differences<F: Arithmetic>(&self, theta: &Vec<Double>, counts: &mut ObservedPdCounts) -> (r: Result<Vec<Double>, GamrsError>) where
        B: ShapeInnerBuilder<F, D, S, L, K, V>,
        P: Profile<F, L>,

        requires
            lawful::<F>(),
            self.wf(),
            theta@.len() == self.axes(),
        ensures
            match r {
                Ok(g) => self.shape_differences::<F>(theta@, g@, *old(counts), *final(counts)),
                Err(e) => self.shape_differences_fail::<F>(
                    theta@,
                    e,
                    *old(counts),
                    *final(counts),
                ),
            },
            counted_some(self.data.observed_on, *old(counts), *final(counts)),
    {
        proof {
            assert(with_outcomes(*counts, Seq::<bool>::empty()) == *counts);
        }
        let m: usize = self.data.s_list.len();
        let mut g: Vec<Double> = Vec::new();
        for k in 0..self.n_shape
            invariant
                lawful::<F>(),
                self.wf(),
                m == self.terms(),
                theta@.len() == self.axes(),
                counted_some(self.data.observed_on, *old(counts), *counts),
                self.slopes_there::<F>(theta@, k as nat, g@, *old(counts), *counts),
        {
            let ghost mid = *counts;
            let (up, down) = match self.values_beside::<F>(theta, m + k, lit(E_M5), counts) {
                Ok(v) => v,
                Err(e) => {
                    assert(self.slopes_there::<F>(theta@, k as nat, g@, *old(counts), mid));
                    return Err(e);
                },
            };
            let s: Double = central::<F>(up, down, lit(E_M5));
            let ghost shorter = g@;
            g.push(s);
            proof {
                let v = seq![up, down];
                assert(self.values_there::<F>(
                    self.sides::<F>(theta@, m + k, lit(E_M5)),
                    v,
                    mid,
                    *counts,
                ));
                assert(g@.drop_last() =~= shorter);
                let n = (k + 1) as nat;
                assert(self.slopes_there::<F>(theta@, (n - 1) as nat, shorter, *old(counts), mid));
                assert(self.slope_there::<F>(
                    theta@,
                    self.terms() + n - 1,
                    lit(E_M5),
                    g@.last(),
                    mid,
                    *counts,
                ));
            }
        }
        Ok(g)
    }

    /// The scores on both sides of a point along one axis, the upper first.
    pub(crate) fn values_beside<F: Arithmetic>(
        &self,
        theta: &Vec<Double>,
        i: usize,
        eps: Double,
        counts: &mut ObservedPdCounts,
    ) -> (r: Result<(Double, Double), GamrsError>) where
        B: ShapeInnerBuilder<F, D, S, L, K, V>,
        P: Profile<F, L>,

        requires
            lawful::<F>(),
            self.wf(),
            theta@.len() == self.axes(),
            i < self.axes(),
        ensures
            match r {
                Ok(v) => self.values_there::<F>(
                    self.sides::<F>(theta@, i as int, eps),
                    seq![v.0, v.1],
                    *old(counts),
                    *final(counts),
                ),
                Err(e) => self.values_fail::<F>(
                    self.sides::<F>(theta@, i as int, eps),
                    e,
                    *old(counts),
                    *final(counts),
                ),
            },
            counted_some(self.data.observed_on, *old(counts), *final(counts)),
    {
        let mut points: Vec<Vec<Double>> = Vec::new();
        points.push(shift::<F>(theta, i, eps, true));
        points.push(shift::<F>(theta, i, eps, false));
        assert(points_of(points@) =~= self.sides::<F>(theta@, i as int, eps));
        match self.compute_values::<F>(&points, counts) {
            Ok(v) => {
                assert(v@ =~= seq![v@[0], v@[1]]);
                Ok((v[0], v[1]))
            },
            Err(e) => Err(e),
        }
    }

    /// The gradient along the shape parameters: in closed form, from first
    /// derivatives, or by differences, in this order of preference. Only the
    /// differences evaluate the score, and count what that gives.
    pub open spec fn shape_part<F: Arithmetic>(
        &self,
        theta: Seq<Double>,
        fit: GaussianInnerFit<S>,
        family: Family<L, K, V>,
        given: Option<&Level1ShapeDerivs>,
        c: FrozenBetaCtx,
        g: Seq<Double>,
        before: ObservedPdCounts,
        after: ObservedPdCounts,
    ) -> bool where B: ShapeInnerBuilder<F, D, S, L, K, V>, P: Profile<F, L> {
        let dp = plus::<F>(c.deviance, c.bsb_total);
        if self.n_shape == 0 {
            g.len() == 0 && after == before
        } else {
            exists|a: Option<Vec<Double>>| #[trigger]
                self.closed_shape_read(fit, family, dp, c.n_minus_mp, c.phi_center, a) && match a {
                    Some(v) => g == v@ && v@.len() == self.n_shape && after == before,
                    None => exists|l: Option<Level1ShapeDerivs>| #[trigger]
                        self.level1_read(fit, family, given, l) && match l {
                            Some(lv1) => self.shape_gradient::<F>(
                                fit,
                                family,
                                lv1,
                                self.rho_of(theta),
                                g,
                            ) && after == before,
                            None => self.shape_differences::<F>(theta, g, before, after),
                        },
                }
        }
    }

    /// The joint gradient at a fit, and the counts before and after it.
    pub open spec fn grad_there<F: Arithmetic>(
        &self,
        theta: Seq<Double>,
        fit: GaussianInnerFit<S>,
        family: Family<L, K, V>,
        given: Option<&Level1ShapeDerivs>,
        c: FrozenBetaCtx,
        g: Seq<Double>,
        before: ObservedPdCounts,
        after: ObservedPdCounts,
    ) -> bool where B: ShapeInnerBuilder<F, D, S, L, K, V>, P: Profile<F, L> {
        &&& g.len() == self.axes()
        &&& self.ctx_of::<F>(fit, family, self.rho_of(theta), c)
        &&& self.rho_gradient::<F>(
            fit,
            family,
            self.rho_of(theta),
            c.bsb_per_term@,
            c.tr_hinv_s_per_term@,
            c.phi_center,
            g.take(self.terms() as int),
        )
        &&& self.shape_part::<F>(
            theta,
            fit,
            family,
            given,
            c,
            g.skip(self.terms() as int),
            before,
            after,
        )
    }

    /// Why there is no gradient along the shape parameters: the closed form, or what
    /// the one from first derivatives is made of, has the wrong size, or there is
    /// neither and `otherwise` says why nothing else came of it. Where it is not for
    /// `otherwise`, `quiet` holds.
    pub open spec fn shape_fails<F: Arithmetic>(
        &self,
        fit: GaussianInnerFit<S>,
        family: Family<L, K, V>,
        given: Option<&Level1ShapeDerivs>,
        rho: Seq<Double>,
        dp: Double,
        n_minus_mp: Double,
        phi: Double,
        quiet: bool,
        otherwise: bool,
        e: GamrsError,
    ) -> bool {
        self.n_shape > 0 && exists|a: Option<Vec<Double>>| #[trigger]
            self.closed_shape_read(fit, family, dp, n_minus_mp, phi, a) && match a {
                Some(v) => misfit(e) && v@.len() != self.n_shape && quiet,
                None => exists|l: Option<Level1ShapeDerivs>| #[trigger]
                    self.level1_read(fit, family, given, l) && match l {
                        Some(lv1) => misfit(e) && self.shape_misread::<F>(fit, family, lv1, rho)
                            && quiet,
                        None => otherwise,
                    },
            }
    }

    /// Why there is no gradient at a fit: something that was answered for the log
    /// smoothing parameters has the wrong size, or there is none along the shape
    /// parameters.
    pub open spec fn grad_fails<F: Arithmetic>(
        &self,
        theta: Seq<Double>,
        fit: GaussianInnerFit<S>,
        family: Family<L, K, V>,
        given: Option<&Level1ShapeDerivs>,
        e: GamrsError,
        before: ObservedPdCounts,
        after: ObservedPdCounts,
    ) -> bool where B: ShapeInnerBuilder<F, D, S, L, K, V>, P: Profile<F, L> {
        ||| misfit(e) && self.rho_misread::<F>(fit, family, self.rho_of(theta)) && after == before
        ||| exists|c: FrozenBetaCtx| #[trigger]
            self.ctx_of::<F>(fit, family, self.rho_of(theta), c) && self.shape_fails::<F>(
                fit,
                family,
                given,
                self.rho_of(theta),
                plus::<F>(c.deviance, c.bsb_total),
                c.n_minus_mp,
                c.phi_center,
                after == before,
                self.shape_differences_fail::<F>(theta, e, before, after),
                e,
            )
    }

    /// The joint gradient at a fit, with first derivatives that are already at
    /// hand, and what is kept of the fit.
    pub fn eval_grad_with_fit_cached<F: Arithmetic>(
        &self,
        theta: &Vec<Double>,
        fit: &GaussianInnerFit<S>,
        family: &Family<L, K, V>,
        given: Option<&Level1ShapeDerivs>,
        counts: &mut ObservedPdCounts,
    ) -> (r: Result<(Vec<Double>, FrozenBetaCtx), GamrsError>) where
        B: ShapeInnerBuilder<F, D, S, L, K, V>,
        P: Profile<F, L>,

        requires
            lawful::<F>(),
            self.wf(),
            self.sized(*fit),
            theta@.len() == self.axes(),
        ensures
            match r {
                Ok(out) => self.grad_there::<F>(
                    theta@,
                    *fit,
                    *family,
                    given,
                    out.1,
                    out.0@,
                    *old(counts),
                    *final(counts),
                ) && out.1.fits(self.terms()),
                Err(e) => self.grad_fails::<F>(
                    theta@,
                    *fit,
                    *family,
                    given,
                    e,
                    *old(counts),
                    *final(counts),
                ),
            },
            counted_some(self.data.observed_on, *old(counts), *final(counts)),
    {
        proof {
            assert(with_outcomes(*counts, Seq::<bool>::empty()) == *counts);
        }
        let m: usize = self.data.s_list.len();
        let rho: Vec<Double> = head(theta, m);
        let c: FrozenBetaCtx = self.context::<F>(fit, family, &rho);
        assert(self.ctx_of::<F>(*fit, *family, self.rho_of(theta@), c));
        let mut g: Vec<Double> = match self.compute_rho_envelope_gradient::<F>(
            fit,
            family,
            &rho,
            &c.bsb_per_term,
            &c.tr_hinv_s_per_term,
            c.phi_center,
        ) {
            Ok(v) => v,
            Err(e) => return Err(e),
        };
        let ghost rho_part = g@;
        let mut shape: Vec<Double> = Vec::new();
        if self.n_shape > 0 {
            let dp: Double = plus::<F>(c.deviance, c.bsb_total);
            let a: Option<Vec<Double>> = family.loss.analytic_shape_score_gradient(
                &self.data.y,
                &fit.mu,
                dp,
                c.n_minus_mp,
                c.phi_center,
            );
            assert(self.closed_shape_read(*fit, *family, dp, c.n_minus_mp, c.phi_center, a));
            shape =
            match a {
                Some(v) => {
                    if v.len() != self.n_shape {
                        return Err(
                            GamrsError::InvalidParameter("fit has the wrong size".to_owned()),
                        );
                    }
                    v
                },
                None => match given {
                    Some(lv1) => {
                        assert(self.level1_read(*fit, *family, given, Some(*lv1)));
                        match self.analytic_shape_grad_via_ift::<F>(fit, family, lv1, &rho) {
                            Ok(v) => v,
                            Err(e) => return Err(e),
                        }
                    },
                    None => {
                        let prior: Vec<Double> = self.prior_weights();
                        let l: Option<Level1ShapeDerivs> = family.loss.level1_shape_derivatives(
                            &self.data.y,
                            &fit.eta,
                            &prior,
                        );
                        assert(self.level1_read(*fit, *family, given, l));
                        match l {
                            Some(lv1) => match self.analytic_shape_grad_via_ift::<F>(
                                fit,
                                family,
                                &lv1,
                                &rho,
                            ) {
                                Ok(v) => v,
                                Err(e) => return Err(e),
                            },
                            None => match self.shape_by_differences::<F>(theta, counts) {
                                Ok(v) => v,
                                Err(e) => return Err(e),
                            },
                        }
                    },
                },
            };
        }
        let ghost shape_part = shape@;
        assert(self.shape_part::<F>(
            theta@,
            *fit,
            *family,
            given,
            c,
            shape_part,
            *old(counts),
            *counts,
        ));
        let mut rest: Vec<Double> = shape;
        g.append(&mut rest);
        assert(g@.take(self.terms() as int) =~= rho_part);
        assert(g@.skip(self.terms() as int) =~= shape_part);
        Ok((g, c))
    }

    /// The joint gradient at a fit, and what is kept of the fit.
    pub fn eval_grad_with_fit<F: Arithmetic>(
        &self,
        theta: &Vec<Double>,
        fit: &GaussianInnerFit<S>,
        family: &Family<L, K, V>,
        counts: &mut ObservedPdCounts,
    ) -> (r: Result<(Vec<Double>, FrozenBetaCtx), GamrsError>) where
        B: ShapeInnerBuilder<F, D, S, L, K, V>,
        P: Profile<F, L>,

        requires
            lawful::<F>(),
            self.wf(),
            self.sized(*fit),
            theta@.len() == self.axes(),
        ensures
            match r {
                Ok(out) => self.grad_there::<F>(
                    theta@,
                    *fit,
                    *family,
                    None,
                    out.1,
                    out.0@,
                    *old(counts),
                    *final(counts),
                ) && out.1.fits(self.terms()),
                Err(e) => self.grad_fails::<F>(
                    theta@,
                    *fit,
                    *family,
                    None,
                    e,
                    *old(counts),
                    *final(counts),
                ),
            },
            counted_some(self.data.observed_on, *old(counts), *final(counts)),
    {
        proof {
            assert(with_outcomes(*counts, Seq::<bool>::empty()) == *counts);
        }
        self.eval_grad_with_fit_cached::<F>(theta, fit, family, None, counts)
    }

    /// Score and joint gradient at a point come from a fit there, and the score is
    /// counted before what the gradient counts.
    pub open spec fn value_grad_there<F: Arithmetic>(
        &self,
        theta: Seq<Double>,
        v: Double,
        g: Seq<Double>,
        before: ObservedPdCounts,
        after: ObservedPdCounts,
    ) -> bool where B: ShapeInnerBuilder<F, D, S, L, K, V>, P: Profile<F, L> {
        exists|fit: GaussianInnerFit<S>, family: Family<L, K, V>, c: FrozenBetaCtx, mid: ObservedPdCounts|
            self.fitted_at::<F>(theta, fit, family) && self.scores_counted::<F>(
                fit,
                family,
                self.rho_of(theta),
                v,
                before,
                mid,
            ) && #[trigger] self.grad_there::<F>(theta, fit, family, None, c, g, mid, after)
    }

    /// A fit at a point failed, or its gradient did once the score was counted.
    pub open spec fn value_grad_fails<F: Arithmetic>(
        &self,
        theta: Seq<Double>,
        e: GamrsError,
        before: ObservedPdCounts,
        after: ObservedPdCounts,
    ) -> bool where B: ShapeInnerBuilder<F, D, S, L, K, V>, P: Profile<F, L> {
        ||| self.unfitted::<F>(theta, e) && after == before
        ||| exists|fit: GaussianInnerFit<S>, family: Family<L, K, V>, v: Double, mid: ObservedPdCounts|
            self.fitted_at::<F>(theta, fit, family) && #[trigger] self.scores_counted::<F>(
                fit,
                family,
                self.rho_of(theta),
                v,
                before,
                mid,
            ) && self.grad_fails::<F>(theta, fit, family, None, e, mid, after)
    }

    /// Score and joint gradient at a point.
    pub fn compute_value_grad<F: Arithmetic>(&self, theta: &Vec<Double>, counts: &mut ObservedPdCounts) -> (r: Result<
        (Double, Vec<Double>),
        GamrsError,
    >) where B: ShapeInnerBuilder<F, D, S, L, K, V>, P: Profile<F, L>
        requires
            lawful::<F>(),
            self.wf(),
            theta@.len() == self.axes(),
        ensures
            match r {
                Ok(out) => self.value_grad_there::<F>(
                    theta@,
                    out.0,
                    out.1@,
                    *old(counts),
                    *final(counts),
                ) && out.1@.len() == self.axes(),
                Err(e) => self.value_grad_fails::<F>(theta@, e, *old(counts), *final(counts)),
            },
            counted_some(self.data.observed_on, *old(counts), *final(counts)),
    {
        proof {
            assert(with_outcomes(*counts, Seq::<bool>::empty()) == *counts);
        }
        let (fit, family) = match self.fit_inner_at::<F>(theta) {
            Ok(out) => out,
            Err(e) => return Err(e),
        };
        assert(self.fitted_at::<F>(theta@, fit, family));
        let rho: Vec<Double> = head(theta, self.data.s_list.len());
        let v: Double = self.score_value::<F>(&fit, &family, &rho, counts);
        let ghost mid = *counts;
        assert(self.scores_counted::<F>(fit, family, self.rho_of(theta@), v, *old(counts), mid));
        match self.eval_grad_with_fit::<F>(theta, &fit, &family, counts) {
            Ok(out) => {
                assert(self.grad_there::<F>(
                    theta@,
                    fit,
                    family,
                    None,
                    out.1,
                    out.0@,
                    mid,
                    *counts,
                ));
                Ok((v, out.0))
            },
            Err(e) => Err(e),
        }
    }

    /// The gradient along the shape parameters with the coefficients held fixed:
    /// in closed form, else from first derivatives.
    pub open spec fn frozen_shape_part<F: Arithmetic>(
        &self,
        fit: GaussianInnerFit<S>,
        family: Family<L, K, V>,
        rho: Seq<Double>,
        dp: Double,
        n_minus_mp: Double,
        phi: Double,
        g: Seq<Double>,
    ) -> bool {
        if self.n_shape == 0 {
            g.len() == 0
        } else {
            exists|a: Option<Vec<Double>>| #[trigger]
                self.closed_shape_read(fit, family, dp, n_minus_mp, phi, a) && match a {
                    Some(v) => g == v@ && v@.len() == self.n_shape,
                    None => exists|lv1: Level1ShapeDerivs| #[trigger]
                        self.level1_read(fit, family, None, Some(lv1)) && self.shape_gradient::<F>(
                            fit,
                            family,
                            lv1,
                            rho,
                            g,
                        ),
                }
        }
    }

    /// The joint gradient at a point with the coefficients of a fit held fixed.
    pub open spec fn frozen_there<F: Arithmetic>(
        &self,
        theta: Seq<Double>,
        fit: GaussianInnerFit<S>,
        c: FrozenBetaCtx,
        g: Seq<Double>,
    ) -> bool where B: ShapeInnerBuilder<F, D, S, L, K, V>, P: Profile<F, L> {
        exists|family: Family<L, K, V>, phi: Double|
            self.shaped(theta, family) && #[trigger] self.frozen_at::<F>(theta, fit, family, c, phi, g)
    }

    /// The joint gradient at a point with the coefficients of a fit held fixed, for
    /// a family and a dispersion.
    pub open spec fn frozen_at<F: Arithmetic>(
        &self,
        theta: Seq<Double>,
        fit: GaussianInnerFit<S>,
        family: Family<L, K, V>,
        c: FrozenBetaCtx,
        phi: Double,
        g: Seq<Double>,
    ) -> bool where B: ShapeInnerBuilder<F, D, S, L, K, V>, P: Profile<F, L> {
        let rho = self.rho_of(theta);
        let bsb_total = weighted_of::<F>(lambdas_of::<F>(rho), c.bsb_per_term@);
        &&& g.len() == self.axes()
        &&& self.phi_read::<F>(fit, family, bsb_total, c.phi_center, phi)
        &&& self.rho_gradient::<F>(
            fit,
            family,
            rho,
            c.bsb_per_term@,
            c.tr_hinv_s_per_term@,
            phi,
            g.take(self.terms() as int),
        )
        &&& self.frozen_shape_part::<F>(
            fit,
            family,
            rho,
            plus::<F>(c.deviance, bsb_total),
            c.n_minus_mp,
            phi,
            g.skip(self.terms() as int),
        )
    }

    /// Something that was answered has the wrong size, or the family has no
    /// gradient along its shape parameters.
    pub open spec fn frozen_fails<F: Arithmetic>(
        &self,
        theta: Seq<Double>,
        fit: GaussianInnerFit<S>,
        c: FrozenBetaCtx,
        e: GamrsError,
    ) -> bool where P: Profile<F, L> {
        exists|family: Family<L, K, V>| #[trigger]
            self.shaped(theta, family) && self.frozen_fails_at::<F>(theta, fit, family, c, e)
    }

    /// Why there is no gradient with the coefficients held fixed, for a family.
    pub open spec fn frozen_fails_at<F: Arithmetic>(
        &self,
        theta: Seq<Double>,
        fit: GaussianInnerFit<S>,
        family: Family<L, K, V>,
        c: FrozenBetaCtx,
        e: GamrsError,
    ) -> bool where P: Profile<F, L> {
        let rho = self.rho_of(theta);
        let bsb_total = weighted_of::<F>(lambdas_of::<F>(rho), c.bsb_per_term@);
        ||| misfit(e) && self.rho_misread::<F>(fit, family, rho)
        ||| exists|phi: Double| #[trigger]
            self.phi_read::<F>(fit, family, bsb_total, c.phi_center, phi) && self.shape_fails::<F>(
                fit,
                family,
                None,
                rho,
                plus::<F>(c.deviance, bsb_total),
                c.n_minus_mp,
                phi,
                true,
                no_shape_gradient(e),
                e,
            )
    }

    /// The joint gradient at a point with the coefficients of a fit held fixed.
    pub fn eval_grad_frozen_beta<F: Arithmetic>(
        &self,
        theta: &Vec<Double>,
        fit: &GaussianInnerFit<S>,
        c: &FrozenBetaCtx,
    ) -> (r: Result<Vec<Double>, GamrsError>) where
        B: ShapeInnerBuilder<F, D, S, L, K, V>,
        P: Profile<F, L>,

        requires
            lawful::<F>(),
            self.wf(),
            self.sized(*fit),
            theta@.len() == self.axes(),
            c.fits(self.terms()),
        ensures
            match r {
                Ok(g) => self.frozen_there::<F>(theta@, *fit, *c, g@) && g@.len() == self.axes(),
                Err(e) => self.frozen_fails::<F>(theta@, *fit, *c, e),
            },
    {
        let m: usize = self.data.s_list.len();
        let rho: Vec<Double> = head(theta, m);
        let family: Family<L, K, V> = self.family_at(theta);
        let lambda: Vec<Double> = lambdas::<F>(&rho);
        let bsb_total: Double = dot::<F>(&lambda, &c.bsb_per_term);
        let phi: Double = self.phi_at::<F>(fit, &family, bsb_total, c.phi_center);
        assert(bsb_total == weighted_of::<F>(
            lambdas_of::<F>(self.rho_of(theta@)),
            c.bsb_per_term@,
        ));
        assert(self.phi_read::<F>(*fit, family, bsb_total, c.phi_center, phi));
        let mut g: Vec<Double> = match self.compute_rho_envelope_gradient::<F>(
            fit,
            &family,
            &rho,
            &c.bsb_per_term,
            &c.tr_hinv_s_per_term,
            phi,
        ) {
            Ok(v) => v,
            Err(e) => {
                assert(self.frozen_fails_at::<F>(theta@, *fit, family, *c, e));
                return Err(e);
            },
        };
        let ghost rho_part = g@;
        let mut shape: Vec<Double> = Vec::new();
        if self.n_shape > 0 {
            let dp: Double = plus::<F>(c.deviance, bsb_total);
            let a: Option<Vec<Double>> = family.loss.analytic_shape_score_gradient(
                &self.data.y,
                &fit.mu,
                dp,
                c.n_minus_mp,
                phi,
            );
            assert(self.closed_shape_read(*fit, family, dp, c.n_minus_mp, phi, a));
            shape =
            match a {
                Some(v) => {
                    if v.len() != self.n_shape {
                        let e: GamrsError = GamrsError::InvalidParameter(
                            "fit has the wrong size".to_owned(),
                        );
                        assert(self.shape_fails::<F>(
                            *fit,
                            family,
                            None,
                            self.rho_of(theta@),
                            dp,
                            c.n_minus_mp,
                            phi,
                            true,
                            no_shape_gradient(e),
                            e,
                        ));
                        assert(self.frozen_fails_at::<F>(theta@, *fit, family, *c, e));
                        return Err(e);
                    }
                    v
                },
                None => {
                    let prior: Vec<Double> = self.prior_weights();
                    let l: Option<Level1ShapeDerivs> = family.loss.level1_shape_derivatives(
                        &self.data.y,
                        &fit.eta,
                        &prior,
                    );
                    assert(self.level1_read(*fit, family, None, l));
                    match l {
                        Some(lv1) => match self.analytic_shape_grad_via_ift::<F>(
                            fit,
                            &family,
                            &lv1,
                            &rho,
                        ) {
                            Ok(v) => v,
                            Err(e) => {
                                assert(self.shape_fails::<F>(
                                    *fit,
                                    family,
                                    None,
                                    self.rho_of(theta@),
                                    dp,
                                    c.n_minus_mp,
                                    phi,
                                    true,
                                    no_shape_gradient(e),
                                    e,
                                ));
                                assert(self.frozen_fails_at::<F>(theta@, *fit, family, *c, e));
                                return Err(e);
                            },
                        },
                        None => {
                            let e: GamrsError = GamrsError::InvalidParameter(
                                "family has no gradient along its shape parameters".to_owned(),
                            );
                            assert(self.shape_fails::<F>(
                                *fit,
                                family,
                                None,
                                self.rho_of(theta@),
                                dp,
                                c.n_minus_mp,
                                phi,
                                true,
                                no_shape_gradient(e),
                                e,
                            ));
                            assert(self.frozen_fails_at::<F>(theta@, *fit, family, *c, e));
                            return Err(e);
                        },
                    }
                },
            };
        }
        let ghost shape_part = shape@;
        let mut rest: Vec<Double> = shape;
        g.append(&mut rest);
        assert(g@.take(self.terms() as int) =~= rho_part);
        assert(g@.skip(self.terms() as int) =~= shape_part);
        assert(self.frozen_at::<F>(theta@, *fit, family, *c, phi, g@));
        Ok(g)
    }
}

} // verus!
