//! The score at a given point, part by part.

use vstd::prelude::*;

use crate::arith::{count, lawful, ln, minus, over, plus, times, total, Arithmetic};
use crate::dense::dot;
use crate::double::{half, lit, one, two, zero, Double, E_M12, PI};
use crate::error::GamrsError;
use crate::inner::linalg::LinearSolver;
use crate::inner::pirls::curvature::{with_outcome, ObservedPdCounts};
use crate::inner::solver::InnerSolver;
use crate::inner::GaussianInnerFit;
use crate::score::envelope::{bsb_of, misfit, reml, reml_of, sat_read, sat_sum};
use crate::score::shape_aware::builder::{InnerData, ShapeInnerBuilder};
use crate::score::shape_aware::score::{
    adjusted_log_det, adjusted_log_det_of, head, lambdas, ShapeAwareEnvelopeScore, ValueReading,
};
use crate::text::{decimal, decimal_text, join3};
use crate::traits::{DenseBackend, Family, Link, ShapeLoss, VarianceFn};

verus! {

/// The parts of a score.
#[derive(Debug)]
pub struct RemlParts {
    /// The score.
    pub score: Double,
    /// Quadratic penalty of each term.
    pub bsb_per_term: Vec<Double>,
    /// Their sum, each times its smoothing parameter.
    pub bsb_total: Double,
    /// Penalised deviance.
    pub dp: Double,
    /// Log determinant of the penalised Hessian.
    pub log_det_h: Double,
    /// Log pseudo-determinant of the penalty.
    pub log_det_lambda_s: Double,
    /// Saturated log-likelihood.
    pub ls: Double,
    /// Dispersion.
    pub phi: Double,
    /// Dimension of the unpenalised space.
    pub mp: usize,
}

/// The text that refuses a point of `got` numbers where `want` are expected.
pub open spec fn wrong_length(name: Seq<char>, parts: Seq<char>, want: nat, got: nat) -> Seq<char> {
    name + " expects theta="@ + parts + " (length "@ + decimal(want) + "); got "@ + decimal(got)
}

/// An error about the length of a point.
pub open spec fn length_refused(e: GamrsError, name: Seq<char>, parts: Seq<char>, want: nat, got: nat) -> bool {
    e matches GamrsError::InvalidParameter(m) && m@ == wrong_length(name, parts, want, got)
}

fn refuse_length(name: &str, parts: &str, want: usize, got: usize) -> (e: GamrsError)
    ensures
        length_refused(e, name@, parts@, want as nat, got as nat),
{
    let w: String = decimal_text(want);
    let g: String = decimal_text(got);
    let mut m: String = join3(name, " expects theta=", parts);
    m.append(" (length ");
    m.append(w.as_str());
    m.append("); got ");
    m.append(g.as_str());
    GamrsError::InvalidParameter(m)
}

/// `dp / 2 + log_det_h / 2 - log_det_lambda_s / 2 - mp / 2 ln(2 pi)`.
pub open spec fn ordered_reml_of<F: Arithmetic>(dp: Double, log_det_h: Double, log_det_lambda_s: Double, mp: usize) -> Double {
    minus::<F>(
        minus::<F>(
            plus::<F>(over::<F>(dp, two()), times::<F>(half(), log_det_h)),
            times::<F>(half(), log_det_lambda_s),
        ),
        times::<F>(
            times::<F>(half(), count::<F>(mp)),
            ln::<F>(times::<F>(two(), lit(PI))),
        ),
    )
}

impl<L: ShapeLoss<K, V>, K: Link, V: VarianceFn, B, P, D: DenseBackend, S: LinearSolver> ShapeAwareEnvelopeScore<
    L,
    K,
    V,
    B,
    P,
    D,
    S,
> {
    /// The parts that do not depend on how the score is put together.
    pub open spec fn common_parts<F: Arithmetic>(
        &self,
        fit: GaussianInnerFit<S>,
        rho: Seq<Double>,
        adj: i32,
        r: RemlParts,
    ) -> bool {
        &&& r.bsb_per_term@ == bsb_of::<F>(self.data.s_list@, fit.beta@)
        &&& r.bsb_total == self.bsb_total_of::<F>(rho, fit.beta@)
        &&& r.dp == plus::<F>(fit.deviance, r.bsb_total)
        &&& r.log_det_lambda_s == adjusted_log_det_of::<F>(
            self.rank_s_list@,
            adj,
            rho,
            self.log_pseudo_det_s_list@,
        )
        &&& r.mp == self.mp
    }

    /// The parts of the score of a fit at a dispersion and a log determinant, for
    /// some answers of the family.
    pub open spec fn taken_apart<F: Arithmetic>(
        &self,
        fit: GaussianInnerFit<S>,
        family: Family<L, K, V>,
        rho: Seq<Double>,
        phi: Double,
        log_det_h: Double,
        r: RemlParts,
    ) -> bool {
        &&& r.phi == phi
        &&& r.log_det_h == log_det_h
        &&& exists|adj: i32| #[trigger]
            call_ensures(<L as ShapeLoss<K, V>>::score_rank_adjustment, (&family.loss,), adj)
                && self.common_parts::<F>(fit, rho, adj, r)
        &&& exists|sat: Seq<Double>| #[trigger]
            sat_read::<L>(family.loss, self.data.y@, phi, sat) && r.ls == total::<F>(
                |i: int| sat[i],
                self.data.y@.len(),
            )
        &&& r.score == reml_of::<F>(r.dp, phi, self.mp, log_det_h, r.log_det_lambda_s, r.ls)
    }

    /// Takes the score of a fit apart.
    pub fn take_apart<F: Arithmetic>(
        &self,
        fit: &GaussianInnerFit<S>,
        family: &Family<L, K, V>,
        rho: &Vec<Double>,
        phi: Double,
        log_det_h: Double,
    ) -> (r: RemlParts)
        requires
            lawful::<F>(),
            self.wf(),
            self.sized(*fit),
            rho@.len() == self.terms(),
        ensures
            self.taken_apart::<F>(*fit, *family, rho@, phi, log_det_h, r),
    {
        let adj: i32 = family.loss.score_rank_adjustment();
        let bsb_per_term: Vec<Double> = self.penalties::<F>(&fit.beta);
        let lambda: Vec<Double> = lambdas::<F>(rho);
        let bsb_total: Double = dot::<F>(&lambda, &bsb_per_term);
        let log_det_lambda_s: Double = adjusted_log_det::<F>(
            &self.rank_s_list,
            adj,
            rho,
            &self.log_pseudo_det_s_list,
        );
        let dp: Double = plus::<F>(fit.deviance, bsb_total);
        let (ls, sat) = sat_sum::<F, L>(&family.loss, &self.data.y, phi);
        let score: Double = reml::<F>(dp, phi, self.mp, log_det_h, log_det_lambda_s, ls);
        let r: RemlParts = RemlParts {
            score,
            bsb_per_term,
            bsb_total,
            dp,
            log_det_h,
            log_det_lambda_s,
            ls,
            phi,
            mp: self.mp,
        };
        assert(self.common_parts::<F>(*fit, rho@, adj, r));
        assert(sat_read::<L>(family.loss, self.data.y@, phi, sat@));
        r
    }

    /// The log determinant of the factor of a fit.
    pub open spec fn own_log_det(&self, fit: GaussianInnerFit<S>, v: Double) -> bool {
        call_ensures(S::logdet, (&fit.a_factor,), v)
    }

    /// The log determinant that takes the place of the factor's, else the
    /// factor's.
    pub open spec fn newton_or_own<F: Arithmetic>(
        &self,
        theta: Seq<Double>,
        fit: GaussianInnerFit<S>,
        v: Double,
    ) -> bool where B: ShapeInnerBuilder<F, D, S, L, K, V> {
        exists|family: Family<L, K, V>, data: InnerData, inner: B::Inner, lazy: Option<Double>|
            self.shaped(theta, family) && data.same(self.data) && #[trigger] B::holds(inner, family, data)
                && #[trigger] inner.newton_log_det(fit.mu@, self.rho_of(theta), lazy) && match lazy {
                Some(x) => v == x,
                None => self.own_log_det(fit, v),
            }
    }

    /// The score of a Tweedie family at a point, from a fit there: the dispersion
    /// is the family's own, at least 1e-12.
    pub open spec fn tweedie_parts<F: Arithmetic>(
        &self,
        theta: Seq<Double>,
        fit: GaussianInnerFit<S>,
        family: Family<L, K, V>,
        r: RemlParts,
    ) -> bool where B: ShapeInnerBuilder<F, D, S, L, K, V> {
        &&& self.fitted_at::<F>(theta, fit, family)
        &&& self.own_log_det(fit, r.log_det_h)
        &&& exists|own: Option<Double>| #[trigger]
            call_ensures(L::fixed_dispersion, (&family.loss,), own) && r.phi == (match own {
                Some(v) => v,
                None => one(),
            }).max_spec(lit(E_M12))
        &&& self.taken_apart::<F>(fit, family, self.rho_of(theta), r.phi, r.log_det_h, r)
    }

    /// The score of a Tweedie family at a point, part by part.
    pub fn evaluate_reml_at_tweedie<F: Arithmetic>(&self, theta: &Vec<Double>) -> (r: Result<
        (GaussianInnerFit<S>, Family<L, K, V>, RemlParts),
        GamrsError,
    >) where B: ShapeInnerBuilder<F, D, S, L, K, V>
        requires
            lawful::<F>(),
            self.wf(),
            self.n_shape == 2,
        ensures
            match r {
                Ok(out) => theta@.len() == self.axes() && self.tweedie_parts::<F>(
                    theta@,
                    out.0,
                    out.1,
                    out.2,
                ),
                Err(e) => if theta@.len() != self.axes() {
                    length_refused(
                        e,
                        "evaluate_reml_at_tweedie"@,
                        "[ρ_1..ρ_T, log_φ, p_transform]"@,
                        self.axes(),
                        theta@.len(),
                    )
                } else {
                    self.unfitted::<F>(theta@, e)
                },
            },
    {
        let m: usize = self.data.s_list.len();
        if theta.len() != m + 2 {
            return Err(
                refuse_length(
                    "evaluate_reml_at_tweedie",
                    "[ρ_1..ρ_T, log_φ, p_transform]",
                    m + 2,
                    theta.len(),
                ),
            );
        }
        let (fit, family) = match self.fit_inner_at::<F>(theta) {
            Ok(out) => out,
            Err(e) => return Err(e),
        };
        let rho: Vec<Double> = head(theta, m);
        let own: Option<Double> = family.loss.fixed_dispersion();
        let phi: Double = match own {
            Some(v) => v.max(lit(E_M12)),
            None => one().max(lit(E_M12)),
        };
        let log_det_h: Double = fit.log_det_a();
        let parts: RemlParts = self.take_apart::<F>(&fit, &family, &rho, phi, log_det_h);
        assert(self.tweedie_parts::<F>(theta@, fit, family, parts));
        Ok((fit, family, parts))
    }

    /// The score of a scaled t family at a point, from a fit there: the
    /// dispersion is 1, the log determinant the one that is minimised.
    pub open spec fn scat_parts<F: Arithmetic>(
        &self,
        theta: Seq<Double>,
        fit: GaussianInnerFit<S>,
        family: Family<L, K, V>,
        r: RemlParts,
        before: ObservedPdCounts,
        after: ObservedPdCounts,
    ) -> bool where B: ShapeInnerBuilder<F, D, S, L, K, V> {
        &&& self.fitted_at::<F>(theta, fit, family)
        &&& exists|o: Option<bool>| #[trigger]
            self.log_det_read::<F>(fit, family, self.rho_of(theta), r.log_det_h, o) && after
                == with_outcome(before, o)
        &&& self.taken_apart::<F>(fit, family, self.rho_of(theta), one(), r.log_det_h, r)
    }

    /// The score of a scaled t family at a point, part by part.
    pub fn evaluate_reml_at_scat<F: Arithmetic>(&self, theta: &Vec<Double>, counts: &mut ObservedPdCounts) -> (r: Result<
        (GaussianInnerFit<S>, Family<L, K, V>, RemlParts),
        GamrsError,
    >) where B: ShapeInnerBuilder<F, D, S, L, K, V>
        requires
            lawful::<F>(),
            self.wf(),
            self.n_shape == 2,
        ensures
            match r {
                Ok(out) => theta@.len() == self.axes() && self.scat_parts::<F>(
                    theta@,
                    out.0,
                    out.1,
                    out.2,
                    *old(counts),
                    *final(counts),
                ),
                Err(e) => *final(counts) == *old(counts) && if theta@.len() != self.axes() {
                    length_refused(
                        e,
                        "evaluate_reml_at_scat"@,
                        "[ρ_1..ρ_T, log_σ², log(ν-2)]"@,
                        self.axes(),
                        theta@.len(),
                    )
                } else {
                    self.unfitted::<F>(theta@, e)
                },
            },
    {
        let m: usize = self.data.s_list.len();
        if theta.len() != m + 2 {
            return Err(
                refuse_length(
                    "evaluate_reml_at_scat",
                    "[ρ_1..ρ_T, log_σ², log(ν-2)]",
                    m + 2,
                    theta.len(),
                ),
            );
        }
        let (fit, family) = match self.fit_inner_at::<F>(theta) {
            Ok(out) => out,
            Err(e) => return Err(e),
        };
        let rho: Vec<Double> = head(theta, m);
        let (log_det_h, outcome) = self.log_det_h::<F>(&fit, &family, &rho, counts);
        assert(self.log_det_read::<F>(fit, family, self.rho_of(theta@), log_det_h, outcome@));
        let parts: RemlParts = self.take_apart::<F>(&fit, &family, &rho, one(), log_det_h);
        assert(self.scat_parts::<F>(theta@, fit, family, parts, *old(counts), *counts));
        Ok((fit, family, parts))
    }

    /// The score of a negative binomial family at a point, from a fit there: the
    /// dispersion is 1, and the log determinant is that of the observed curvature
    /// where the family asks for it.
    pub open spec fn negbin_parts<F: Arithmetic>(
        &self,
        theta: Seq<Double>,
        fit: GaussianInnerFit<S>,
        family: Family<L, K, V>,
        r: RemlParts,
    ) -> bool where B: ShapeInnerBuilder<F, D, S, L, K, V> {
        &&& self.fitted_at::<F>(theta, fit, family)
        &&& self.newton_or_own::<F>(theta, fit, r.log_det_h)
        &&& self.taken_apart::<F>(fit, family, self.rho_of(theta), one(), r.log_det_h, r)
    }

    /// The score of a negative binomial family at a point, part by part.
    pub fn evaluate_reml_at_negbin<F: Arithmetic>(&self, theta: &Vec<Double>) -> (r: Result<
        (GaussianInnerFit<S>, Family<L, K, V>, RemlParts),
        GamrsError,
    >) where B: ShapeInnerBuilder<F, D, S, L, K, V>
        requires
            lawful::<F>(),
            self.wf(),
            self.n_shape == 1,
        ensures
            match r {
                Ok(out) => theta@.len() == self.axes() && self.negbin_parts::<F>(
                    theta@,
                    out.0,
                    out.1,
                    out.2,
                ),
                Err(e) => if theta@.len() != self.axes() {
                    length_refused(
                        e,
                        "evaluate_reml_at_negbin"@,
                        "[ρ_1..ρ_T, log_θ]"@,
                        self.axes(),
                        theta@.len(),
                    )
                } else {
                    self.unfitted::<F>(theta@, e)
                },
            },
    {
        let m: usize = self.data.s_list.len();
        if theta.len() != m + 1 {
            return Err(
                refuse_length(
                    "evaluate_reml_at_negbin",
                    "[ρ_1..ρ_T, log_θ]",
                    m + 1,
                    theta.len(),
                ),
            );
        }
        let (fit, family) = match self.fit_inner_at::<F>(theta) {
            Ok(out) => out,
            Err(e) => return Err(e),
        };
        let rho: Vec<Double> = head(theta, m);
        let own: Family<L, K, V> = self.family_at(theta);
        let data: InnerData = self.data.copy();
        let ghost used = data;
        let ghost given = own;
        let inner: B::Inner = self.inner_builder.build(own, data);
        assert(B::holds(inner, given, used));
        let lazy: Option<Double> = inner.lazy_newton_log_det_h(&fit, &rho);
        let log_det_h: Double = match lazy {
            Some(v) => v,
            None => fit.log_det_a(),
        };
        assert(self.newton_or_own::<F>(theta@, fit, log_det_h)) by {
            assert(inner.newton_log_det(fit.mu@, self.rho_of(theta@), lazy));
        }
        let parts: RemlParts = self.take_apart::<F>(&fit, &family, &rho, one(), log_det_h);
        assert(self.negbin_parts::<F>(theta@, fit, family, parts));
        Ok((fit, family, parts))
    }

    /// The score of ordered categories at a point, from a fit there, and its
    /// gradient along the log smoothing parameters.
    pub open spec fn ocat_parts<F: Arithmetic>(
        &self,
        theta: Seq<Double>,
        fit: GaussianInnerFit<S>,
        family: Family<L, K, V>,
        r: RemlParts,
        grad_rho: Seq<Double>,
    ) -> bool where B: ShapeInnerBuilder<F, D, S, L, K, V> {
        &&& self.fitted_at::<F>(theta, fit, family)
        &&& self.own_log_det(fit, r.log_det_h)
        &&& exists|adj: i32| #[trigger]
            call_ensures(<L as ShapeLoss<K, V>>::score_rank_adjustment, (&family.loss,), adj)
                && self.common_parts::<F>(fit, self.rho_of(theta), adj, r)
        &&& r.score == ordered_reml_of::<F>(r.dp, r.log_det_h, r.log_det_lambda_s, self.mp)
        &&& r.phi == one()
        &&& r.ls == zero()
        &&& exists|tr: Seq<Double>| #[trigger]
            self.traces_read(fit, tr) && self.rho_gradient::<F>(
                fit,
                family,
                self.rho_of(theta),
                r.bsb_per_term@,
                tr,
                one(),
                grad_rho,
            )
    }

    /// The score of ordered categories at a point, for some family there.
    pub open spec fn ocat_there<F: Arithmetic>(
        &self,
        theta: Seq<Double>,
        fit: GaussianInnerFit<S>,
        r: RemlParts,
        grad_rho: Seq<Double>,
    ) -> bool where B: ShapeInnerBuilder<F, D, S, L, K, V> {
        exists|family: Family<L, K, V>| #[trigger]
            self.ocat_parts::<F>(theta, fit, family, r, grad_rho)
    }

    /// Something that was answered about the fit of ordered categories has the
    /// wrong size.
    pub open spec fn ocat_misread<F: Arithmetic>(&self, theta: Seq<Double>, e: GamrsError) -> bool where
        B: ShapeInnerBuilder<F, D, S, L, K, V>,
     {
        misfit(e) && exists|fit: GaussianInnerFit<S>, family: Family<L, K, V>| #[trigger]
            self.fitted_at::<F>(theta, fit, family) && self.rho_misread::<F>(
                fit,
                family,
                self.rho_of(theta),
            )
    }

    /// The score of ordered categories at a point, part by part, and its gradient
    /// along the log smoothing parameters.
    pub fn evaluate_reml_at_ocat<F: Arithmetic>(&self, theta: &Vec<Double>) -> (r: Result<
        (GaussianInnerFit<S>, RemlParts, Vec<Double>),
        GamrsError,
    >) where B: ShapeInnerBuilder<F, D, S, L, K, V>
        requires
            lawful::<F>(),
            self.wf(),
            theta@.len() == self.axes(),
        ensures
            match r {
                Ok(out) => self.ocat_there::<F>(theta@, out.0, out.1, out.2@),
                Err(e) => self.unfitted::<F>(theta@, e) || self.ocat_misread::<F>(theta@, e),
            },
    {
        let (fit, family) = match self.fit_inner_at::<F>(theta) {
            Ok(out) => out,
            Err(e) => return Err(e),
        };
        let rho: Vec<Double> = head(theta, self.data.s_list.len());
        let adj: i32 = family.loss.score_rank_adjustment();
        let bsb_per_term: Vec<Double> = self.penalties::<F>(&fit.beta);
        let lambda: Vec<Double> = lambdas::<F>(&rho);
        let bsb_total: Double = dot::<F>(&lambda, &bsb_per_term);
        let log_det_lambda_s: Double = adjusted_log_det::<F>(
            &self.rank_s_list,
            adj,
            &rho,
            &self.log_pseudo_det_s_list,
        );
        let dp: Double = plus::<F>(fit.deviance, bsb_total);
        let log_det_h: Double = fit.log_det_a();
        let scale_part: Double = times::<F>(
            times::<F>(half(), count::<F>(self.mp)),
            ln::<F>(times::<F>(two(), lit(PI))),
        );
        let score: Double = minus::<F>(
            minus::<F>(
                plus::<F>(over::<F>(dp, two()), times::<F>(half(), log_det_h)),
                times::<F>(half(), log_det_lambda_s),
            ),
            scale_part,
        );
        let tr: Vec<Double> = self.traces(&fit);
        match self.compute_rho_envelope_gradient::<F>(
            &fit,
            &family,
            &rho,
            &bsb_per_term,
            &tr,
            one(),
        ) {
            Ok(grad_rho) => {
                let parts: RemlParts = RemlParts {
                    score,
                    bsb_per_term,
                    bsb_total,
                    dp,
                    log_det_h,
                    log_det_lambda_s,
                    ls: zero(),
                    phi: one(),
                    mp: self.mp,
                };
                assert(self.common_parts::<F>(fit, rho@, adj, parts));
                assert(self.traces_read(fit, tr@));
                assert(self.ocat_parts::<F>(theta@, fit, family, parts, grad_rho@));
                assert(self.ocat_there::<F>(theta@, fit, parts, grad_rho@));
                Ok((fit, parts, grad_rho))
            },
            Err(e) => {
                assert(self.fitted_at::<F>(theta@, fit, family));
                assert(self.ocat_misread::<F>(theta@, e));
                Err(e)
            },
        }
    }

    /// At the same dispersion and log determinant, the parts add up to what the
    /// minimised score is: the two are one formula.
    pub proof fn law_parts_make_the_score<F: Arithmetic>(
        &self,
        fit: GaussianInnerFit<S>,
        family: Family<L, K, V>,
        rho: Seq<Double>,
        q: ValueReading,
        r: RemlParts,
    )
        requires
            q.phi == Some(r.phi),
            r.log_det_h == q.log_det_h,
            self.common_parts::<F>(fit, rho, q.adj, r),
            r.ls == total::<F>(|i: int| q.sat[i], self.data.y@.len()),
            r.score == reml_of::<F>(r.dp, r.phi, self.mp, r.log_det_h, r.log_det_lambda_s, r.ls),
        ensures
            r.score == self.value_at::<F>(fit, rho, q),
    {
    }
}

} // verus!
