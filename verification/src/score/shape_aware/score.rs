//! The score over smoothing and shape parameters: the fit at a point and its
//! value there.

use std::marker::PhantomData;

use vstd::prelude::*;

use crate::arith::{count, exp, lawful, plus, times, total, whole, Arithmetic};
use crate::dense::{beta_sbeta, beta_sbeta_of, dot, sum_over};
use crate::double::{lit, one, Double, E_12};
use crate::error::GamrsError;
use crate::inner::closed_form::{owned_weights_view, prior_or_ones, weights_or_ones};
use crate::inner::linalg::LinearSolver;
use crate::inner::pirls::curvature::{
    counted_some, law_counts_add_up, score_log_det_h, score_log_det_h_applies, score_log_det_of,
    with_outcome, with_outcomes, ObservedPdCounts,
};
use crate::inner::solver::InnerSolver;
use crate::inner::{combined_s, combined_s_of, GaussianInnerFit};
use crate::matrix::{fill_vec, Matrix};
use crate::score::envelope::{
    bsb_of, lambdas_of, misfit, reml, reml_of, sat_read, sat_sum, weighted_of,
};
use crate::score::profile::{DispersionInputs, FixedAtOneProfile, OwnedByLossProfile, Profile};
use crate::score::shape_aware::builder::{
    InnerData, OcatInnerBuilder, PirlsInnerBuilder, ShapeInnerBuilder,
};
use crate::traits::{DenseBackend, Family, Link, ShapeLoss, VarianceFn};

verus! {

/// The score over the log smoothing parameters and the shape parameters of a
/// family.
pub struct ShapeAwareEnvelopeScore<L: ShapeLoss<K, V>, K: Link, V: VarianceFn, B, P, D: DenseBackend, S: LinearSolver> {
    /// Data of the inner fits.
    pub data: InnerData,
    /// Family, at whatever shape parameters.
    pub family_base: Family<L, K, V>,
    /// Number of shape parameters.
    pub n_shape: usize,
    /// Rank of each penalty.
    pub rank_s_list: Vec<usize>,
    /// Dimension of the unpenalised space.
    pub mp: usize,
    /// Log pseudo-determinant of each penalty.
    pub log_pseudo_det_s_list: Vec<Double>,
    /// Builder of the inner solvers.
    pub inner_builder: B,
    /// Convention for the dispersion.
    pub profile: P,
    /// Factorisations.
    pub backend: PhantomData<D>,
    /// Linear solver of the inner fits.
    pub solver: PhantomData<S>,
}

/// Fits by reweighted least squares, dispersion 1.
pub type ShapeAwarePirlsScore<L, K, V, D, S> = ShapeAwareEnvelopeScore<
    L,
    K,
    V,
    PirlsInnerBuilder,
    FixedAtOneProfile,
    D,
    S,
>;

/// Fits by reweighted least squares, dispersion held by the loss.
pub type ShapeAwarePirlsScoreOwnedPhi<L, K, V, D, S> = ShapeAwareEnvelopeScore<
    L,
    K,
    V,
    PirlsInnerBuilder,
    OwnedByLossProfile,
    D,
    S,
>;

/// Ordered categories, dispersion 1.
pub type ShapeAwareOcatScore<O, K, V, D, S> = ShapeAwareEnvelopeScore<
    O,
    K,
    V,
    OcatInnerBuilder,
    FixedAtOneProfile,
    D,
    S,
>;

/// The rank of a penalty with an adjustment, at least 1.
pub open spec fn adjusted_rank_of(rank: usize, adj: i32) -> int {
    if rank + adj < 1 {
        1
    } else {
        rank + adj
    }
}

/// The rank of a penalty with an adjustment, at least 1.
pub fn adjusted_rank(rank: usize, adj: i32) -> (r: i64)
    requires
        rank <= i32::MAX,
    ensures
        r == adjusted_rank_of(rank, adj),
{
    let sum: i64 = rank as i64 + adj as i64;
    if sum < 1 {
        1
    } else {
        sum
    }
}

/// The log pseudo-determinant of the penalty with adjusted ranks.
pub open spec fn adjusted_log_det_of<F: Arithmetic>(
    ranks: Seq<usize>,
    adj: i32,
    rho: Seq<Double>,
    lpd: Seq<Double>,
) -> Double {
    total::<F>(
        |j: int|
            plus::<F>(
                times::<F>(whole::<F>(adjusted_rank_of(ranks[j], adj) as i64), rho[j]),
                lpd[j],
            ),
        rho.len(),
    )
}

/// The log pseudo-determinant of the penalty with adjusted ranks.
pub fn adjusted_log_det<F: Arithmetic>(ranks: &Vec<usize>, adj: i32, rho: &Vec<Double>, lpd: &Vec<Double>) -> (r: Double)
    requires
        lawful::<F>(),
        ranks@.len() == rho@.len(),
        lpd@.len() == rho@.len(),
        forall|j: int| 0 <= j < ranks@.len() ==> (#[trigger] ranks@[j]) <= i32::MAX,
    ensures
        r == adjusted_log_det_of::<F>(ranks@, adj, rho@, lpd@),
{
    let term = |j: usize| -> (v: Double)
        requires
            j < rho@.len(),
        ensures
            v == plus::<F>(
                times::<F>(
                    whole::<F>(adjusted_rank_of(ranks@[j as int], adj) as i64),
                    rho@[j as int],
                ),
                lpd@[j as int],
            ),
        { plus::<F>(times::<F>(whole::<F>(adjusted_rank(ranks[j], adj)), rho[j]), lpd[j]) };
    sum_over::<F, _>(
        rho.len(),
        term,
        Ghost(
            |j: int|
                plus::<F>(
                    times::<F>(whole::<F>(adjusted_rank_of(ranks@[j], adj) as i64), rho@[j]),
                    lpd@[j],
                ),
        ),
    )
}

/// What was read about a fit to score it.
pub struct ValueReading {
    /// Rank adjustment.
    pub adj: i32,
    /// Dispersion; `None` where the fit is not physical.
    pub phi: Option<Double>,
    /// Log determinant.
    pub log_det_h: Double,
    /// Saturated log-likelihoods.
    pub sat: Seq<Double>,
    /// Whether observed curvature was usable, where it was tried.
    pub outcome: Option<bool>,
}

/// The first `n` entries.
pub fn head(v: &Vec<Double>, n: usize) -> (r: Vec<Double>)
    requires
        n <= v@.len(),
    ensures
        r@ == v@.take(n as int),
{
    let entry = |i: usize| -> (x: Double)
        requires
            i < n,
        ensures
            x == v@[i as int],
        { v[i] };
    let r: Vec<Double> = fill_vec(n, entry);
    assert(r@ =~= v@.take(n as int));
    r
}

/// The entries from `n` on.
pub fn tail(v: &Vec<Double>, n: usize) -> (r: Vec<Double>)
    requires
        n <= v@.len(),
    ensures
        r@ == v@.skip(n as int),
{
    let m: usize = v.len() - n;
    let entry = |i: usize| -> (x: Double)
        requires
            i < m,
        ensures
            x == v@[n + i],
        { v[n + i] };
    let r: Vec<Double> = fill_vec(m, entry);
    assert(r@ =~= v@.skip(n as int));
    r
}

impl<L: ShapeLoss<K, V>, K: Link, V: VarianceFn, B, P, D: DenseBackend, S: LinearSolver> ShapeAwareEnvelopeScore<
    L,
    K,
    V,
    B,
    P,
    D,
    S,
> {
    /// A score over the smoothing parameters and as many shape parameters as the
    /// loss says it has.
    pub fn new(
        data: InnerData,
        family_base: Family<L, K, V>,
        rank_s_list: Vec<usize>,
        mp: usize,
        log_pseudo_det_s_list: Vec<Double>,
        inner_builder: B,
        profile: P,
    ) -> (r: ShapeAwareEnvelopeScore<L, K, V, B, P, D, S>)
        ensures
            r.data == data,
            r.family_base == family_base,
            call_ensures(<L as ShapeLoss<K, V>>::n_shape_params, (&family_base.loss,), r.n_shape),
            r.rank_s_list == rank_s_list,
            r.mp == mp,
            r.log_pseudo_det_s_list == log_pseudo_det_s_list,
            r.inner_builder == inner_builder,
            r.profile == profile,
    {
        let n_shape: usize = family_base.loss.n_shape_params();
        ShapeAwareEnvelopeScore {
            data,
            family_base,
            n_shape,
            rank_s_list,
            mp,
            log_pseudo_det_s_list,
            inner_builder,
            profile,
            backend: PhantomData,
            solver: PhantomData,
        }
    }

    /// Number of smooth terms.
    pub open spec fn terms(&self) -> nat {
        self.data.s_list@.len()
    }

    /// Number of parameters.
    pub open spec fn axes(&self) -> nat {
        self.data.s_list@.len() + self.n_shape as nat
    }

    /// The parts agree, and there is a coefficient.
    pub open spec fn wf(&self) -> bool {
        &&& self.data.wf()
        &&& self.data.x_design.cols > 0
        &&& self.rank_s_list@.len() == self.terms()
        &&& self.log_pseudo_det_s_list@.len() == self.terms()
        &&& forall|j: int| 0 <= j < self.rank_s_list@.len() ==> (#[trigger] self.rank_s_list@[j]) <= i32::MAX
        &&& self.axes() <= usize::MAX
    }

    /// The prior weights, or ones.
    pub open spec fn prior(&self) -> Seq<Double> {
        weights_or_ones(owned_weights_view(self.data.prior_weights), self.data.y@.len())
    }

    /// The prior weights, or ones.
    pub fn prior_weights(&self) -> (r: Vec<Double>)
        requires
            self.wf(),
        ensures
            r@ == self.prior(),
            r@.len() == self.data.y@.len(),
    {
        let w: Option<&Vec<Double>> = self.data.prior_weights.as_ref();
        prior_or_ones(w, self.data.y.len())
    }

    /// The log smoothing parameters of a point.
    pub open spec fn rho_of(&self, theta: Seq<Double>) -> Seq<Double> {
        theta.take(self.terms() as int)
    }

    /// The family at the shape parameters of a point, as the loss answers; a clone
    /// of the base where there are no shape parameters.
    pub open spec fn shaped(&self, theta: Seq<Double>, family: Family<L, K, V>) -> bool {
        if self.n_shape == 0 {
            family.cloned_from(self.family_base)
        } else {
            exists|shape: Vec<Double>|
                shape@ == theta.skip(self.terms() as int) && #[trigger] call_ensures(
                    <L as ShapeLoss<K, V>>::set_shape_params,
                    (&self.family_base, &shape),
                    family,
                )
        }
    }

    /// The family at the shape parameters of a point.
    pub fn family_at(&self, theta: &Vec<Double>) -> (family: Family<L, K, V>)
        requires
            theta@.len() == self.axes(),
        ensures
            self.shaped(theta@, family),
    {
        if self.n_shape == 0 {
            return self.family_base.copy();
        }
        let shape: Vec<Double> = tail(theta, self.data.s_list.len());
        <L as ShapeLoss<K, V>>::set_shape_params(&self.family_base, &shape)
    }

    /// A fit has the sizes of the data.
    pub open spec fn sized(&self, fit: GaussianInnerFit<S>) -> bool {
        let n = self.data.y@.len();
        &&& fit.n == n
        &&& fit.p == self.data.x_design.cols
        &&& fit.beta@.len() == fit.p
        &&& fit.eta@.len() == n
        &&& fit.mu@.len() == n
        &&& fit.working_weights@.len() == n
        &&& fit.working_response@.len() == n
    }

    fn size_ok(&self, fit: &GaussianInnerFit<S>) -> (b: bool)
        ensures
            b == self.sized(*fit),
    {
        let n: usize = self.data.y.len();
        fit.n == n && fit.p == self.data.x_design.cols && fit.beta.len() == fit.p && fit.eta.len() == n
            && fit.mu.len() == n && fit.working_weights.len() == n && fit.working_response.len() == n
    }

    /// An inner fit at a point, for some answers of the family.
    pub open spec fn inner_fit<F: Arithmetic>(
        &self,
        theta: Seq<Double>,
        r: Result<GaussianInnerFit<S>, GamrsError>,
    ) -> bool where B: ShapeInnerBuilder<F, D, S, L, K, V> {
        exists|family: Family<L, K, V>, data: InnerData, inner: B::Inner|
            self.shaped(theta, family) && data.same(self.data) && #[trigger] B::holds(inner, family, data)
                && inner.fits(self.rho_of(theta), None, r)
    }

    /// A fit at a point and the family there.
    pub open spec fn fitted_at<F: Arithmetic>(
        &self,
        theta: Seq<Double>,
        fit: GaussianInnerFit<S>,
        family: Family<L, K, V>,
    ) -> bool where B: ShapeInnerBuilder<F, D, S, L, K, V> {
        &&& self.inner_fit::<F>(theta, Ok(fit))
        &&& self.sized(fit)
        &&& self.shaped(theta, family)
    }

    /// The fit at a point failed, or does not have the sizes of the data.
    pub open spec fn unfitted<F: Arithmetic>(&self, theta: Seq<Double>, e: GamrsError) -> bool where
        B: ShapeInnerBuilder<F, D, S, L, K, V>,
     {
        ||| self.inner_fit::<F>(theta, Err(e))
        ||| exists|fit: GaussianInnerFit<S>| #[trigger]
            self.inner_fit::<F>(theta, Ok(fit)) && !self.sized(fit) && misfit(e)
    }

    /// The inner fit at a point, and the family at its shape parameters.
    pub fn fit_inner_at<F: Arithmetic>(&self, theta: &Vec<Double>) -> (r: Result<
        (GaussianInnerFit<S>, Family<L, K, V>),
        GamrsError,
    >) where B: ShapeInnerBuilder<F, D, S, L, K, V>
        requires
            lawful::<F>(),
            self.wf(),
            theta@.len() == self.axes(),
        ensures
            match r {
                Ok(out) => self.fitted_at::<F>(theta@, out.0, out.1),
                Err(e) => self.unfitted::<F>(theta@, e),
            },
    {
        let m: usize = self.data.s_list.len();
        let rho: Vec<Double> = head(theta, m);
        let family: Family<L, K, V> = self.family_at(theta);
        let own: Family<L, K, V> = self.family_at(theta);
        let data: InnerData = self.data.copy();
        let ghost used = data;
        let ghost given = own;
        let inner: B::Inner = self.inner_builder.build(own, data);
        let fr: Result<GaussianInnerFit<S>, GamrsError> = inner.fit(&rho);
        assert(B::holds(inner, given, used));
        assert(self.inner_fit::<F>(theta@, fr));
        match fr {
            Ok(fit) => if self.size_ok(&fit) {
                Ok((fit, family))
            } else {
                Err(GamrsError::InvalidParameter("fit has the wrong size".to_owned()))
            },
            Err(e) => Err(e),
        }
    }

    /// What the dispersion is computed from at a weighted penalty.
    pub open spec fn dispersion_inputs<F: Arithmetic>(&self, bsb_total: Double) -> DispersionInputs {
        DispersionInputs {
            lambda: one(),
            bsb: bsb_total,
            tr_hinv_xtwx: count::<F>(self.data.x_design.cols),
            mp: self.mp,
        }
    }

    /// `sum_j lambda_j b'S_j b`.
    pub open spec fn bsb_total_of<F: Arithmetic>(&self, rho: Seq<Double>, beta: Seq<Double>) -> Double {
        weighted_of::<F>(lambdas_of::<F>(rho), bsb_of::<F>(self.data.s_list@, beta))
    }

    /// The log determinant in the score of a fit: one that the fit carries, else
    /// that of [`score_log_det_of`] where the loss uses the observed information or
    /// the observed curvature is switched on, else that of the fit's factor.
    pub open spec fn log_det_read<F: Arithmetic>(
        &self,
        fit: GaussianInnerFit<S>,
        family: Family<L, K, V>,
        rho: Seq<Double>,
        v: Double,
        outcome: Option<bool>,
    ) -> bool {
        match fit.log_det_h_override {
            Some(own) => v == own && outcome is None,
            None => exists|newton: bool| #[trigger]
                call_ensures(L::use_newton_irls, (&family.loss,), newton) && if newton
                    || self.data.observed_on {
                    self.curvature_read::<F>(fit, family, rho, v, outcome)
                } else {
                    outcome is None && call_ensures(S::logdet, (&fit.a_factor,), v)
                },
        }
    }

    /// The log determinant of [`score_log_det_of`] at a fit.
    pub open spec fn curvature_read<F: Arithmetic>(
        &self,
        fit: GaussianInnerFit<S>,
        family: Family<L, K, V>,
        rho: Seq<Double>,
        v: Double,
        outcome: Option<bool>,
    ) -> bool {
        exists|prior: Vec<Double>|
            prior@ == self.prior() && #[trigger] score_log_det_of::<F, L, K, V, D, S>(
                self.data.observed_on,
                family,
                self.data.y,
                fit.eta,
                fit.mu@,
                prior,
                self.data.x_design,
                combined_s_of::<F>(self.data.s_list@, rho, self.data.x_design.cols as nat),
                fit,
                v,
                outcome,
            )
    }

    /// The log determinant in the score of a fit. Whether observed curvature was
    /// usable is counted where it was tried.
    pub fn log_det_h<F: Arithmetic>(
        &self,
        fit: &GaussianInnerFit<S>,
        family: &Family<L, K, V>,
        rho: &Vec<Double>,
        counts: &mut ObservedPdCounts,
    ) -> (r: (Double, Ghost<Option<bool>>))
        requires
            lawful::<F>(),
            self.wf(),
            self.sized(*fit),
            rho@.len() == self.terms(),
        ensures
            self.log_det_read::<F>(*fit, *family, rho@, r.0, r.1@),
            *final(counts) == with_outcome(*old(counts), r.1@),
            r.1@ is Some ==> self.data.observed_on,
    {
        match fit.log_det_h_override {
            Some(v) => (v, Ghost(None)),
            None => {
                let newton: bool = family.loss.use_newton_irls();
                if !score_log_det_h_applies(newton, self.data.observed_on) {
                    return (fit.log_det_a(), Ghost(None));
                }
                let prior: Vec<Double> = self.prior_weights();
                let s_total: Matrix = combined_s::<F>(
                    &self.data.s_list,
                    rho,
                    self.data.x_design.cols,
                );
                let v: Double = score_log_det_h::<F, L, K, V, D, S>(
                    self.data.observed_on,
                    family,
                    &self.data.y,
                    &fit.eta,
                    &fit.mu,
                    &prior,
                    &self.data.x_design,
                    &s_total,
                    fit,
                    counts,
                );
                let ghost o = choose|o: Option<bool>| #[trigger]
                    score_log_det_of::<F, L, K, V, D, S>(
                        self.data.observed_on,
                        *family,
                        self.data.y,
                        fit.eta,
                        fit.mu@,
                        prior,
                        self.data.x_design,
                        s_total@,
                        *fit,
                        v,
                        o,
                    ) && *counts == with_outcome(*old(counts), o);
                assert(self.curvature_read::<F>(*fit, *family, rho@, v, o));
                (v, Ghost(o))
            },
        }
    }

    /// What was read about a fit to score it.
    pub open spec fn value_read<F: Arithmetic>(
        &self,
        fit: GaussianInnerFit<S>,
        family: Family<L, K, V>,
        rho: Seq<Double>,
        q: ValueReading,
    ) -> bool where P: Profile<F, L> {
        &&& call_ensures(<L as ShapeLoss<K, V>>::score_rank_adjustment, (&family.loss,), q.adj)
        &&& self.profile.disperses(
            family.loss,
            fit.n,
            fit.deviance,
            self.dispersion_inputs::<F>(self.bsb_total_of::<F>(rho, fit.beta@)),
            q.phi,
        )
        &&& (q.phi is None ==> q.outcome is None)
        &&& (q.phi matches Some(phi) ==> {
            &&& sat_read::<L>(family.loss, self.data.y@, phi, q.sat)
            &&& self.log_det_read::<F>(fit, family, rho, q.log_det_h, q.outcome)
        })
    }

    /// The score at a reading: 1e12 where the fit is not physical.
    pub open spec fn value_at<F: Arithmetic>(&self, fit: GaussianInnerFit<S>, rho: Seq<Double>, q: ValueReading) -> Double {
        match q.phi {
            Some(phi) => reml_of::<F>(
                plus::<F>(fit.deviance, self.bsb_total_of::<F>(rho, fit.beta@)),
                phi,
                self.mp,
                q.log_det_h,
                adjusted_log_det_of::<F>(self.rank_s_list@, q.adj, rho, self.log_pseudo_det_s_list@),
                total::<F>(|i: int| q.sat[i], self.data.y@.len()),
            ),
            None => lit(E_12),
        }
    }

    /// The score of a fit, for some reading of it.
    pub open spec fn scores<F: Arithmetic>(
        &self,
        fit: GaussianInnerFit<S>,
        family: Family<L, K, V>,
        rho: Seq<Double>,
        v: Double,
    ) -> bool where P: Profile<F, L> {
        exists|q: ValueReading| #[trigger]
            self.value_read::<F>(fit, family, rho, q) && v == self.value_at::<F>(fit, rho, q)
    }

    /// The score of a fit, for some reading of it with a given outcome of the
    /// observed curvature.
    pub open spec fn scores_with<F: Arithmetic>(
        &self,
        fit: GaussianInnerFit<S>,
        family: Family<L, K, V>,
        rho: Seq<Double>,
        v: Double,
        outcome: Option<bool>,
    ) -> bool where P: Profile<F, L> {
        exists|q: ValueReading| #[trigger]
            self.value_read::<F>(fit, family, rho, q) && v == self.value_at::<F>(fit, rho, q)
                && q.outcome == outcome
    }

    /// The score of a fit, and the counts with the outcome of the observed
    /// curvature in it.
    pub open spec fn scores_counted<F: Arithmetic>(
        &self,
        fit: GaussianInnerFit<S>,
        family: Family<L, K, V>,
        rho: Seq<Double>,
        v: Double,
        before: ObservedPdCounts,
        after: ObservedPdCounts,
    ) -> bool where P: Profile<F, L> {
        exists|o: Option<bool>| #[trigger]
            self.scores_with::<F>(fit, family, rho, v, o) && after == with_outcome(before, o)
    }

    /// The quadratic penalties of the terms at coefficients.
    pub fn penalties<F: Arithmetic>(&self, beta: &Vec<Double>) -> (r: Vec<Double>)
        requires
            lawful::<F>(),
            self.wf(),
            beta@.len() == self.data.x_design.cols,
        ensures
            r@ == bsb_of::<F>(self.data.s_list@, beta@),
    {
        let m: usize = self.data.s_list.len();
        let entry = |j: usize| -> (v: Double)
            requires
                j < m,
            ensures
                v == beta_sbeta_of::<F>(self.data.s_list@[j as int]@, beta@),
            {
                assert(self.data.s_list@[j as int].square(beta@.len()));
                beta_sbeta::<F>(&self.data.s_list[j], beta)
            };
        let r: Vec<Double> = fill_vec(m, entry);
        assert(r@ =~= bsb_of::<F>(self.data.s_list@, beta@));
        r
    }

    /// The score of a fit. Whether observed curvature was usable is counted where
    /// it was tried.
    pub fn score_value<F: Arithmetic>(
        &self,
        fit: &GaussianInnerFit<S>,
        family: &Family<L, K, V>,
        rho: &Vec<Double>,
        counts: &mut ObservedPdCounts,
    ) -> (r: Double) where P: Profile<F, L>
        requires
            lawful::<F>(),
            self.wf(),
            self.sized(*fit),
            rho@.len() == self.terms(),
        ensures
            self.scores::<F>(*fit, *family, rho@, r),
            self.scores_counted::<F>(*fit, *family, rho@, r, *old(counts), *final(counts)),
            counted_some(self.data.observed_on, *old(counts), *final(counts)),
    {
        proof {
            assert(with_outcomes(*counts, Seq::<bool>::empty()) == *counts);
        }
        let adj: i32 = family.loss.score_rank_adjustment();
        let bsb: Vec<Double> = self.penalties::<F>(&fit.beta);
        let lambda: Vec<Double> = lambdas::<F>(rho);
        let bsb_total: Double = dot::<F>(&lambda, &bsb);
        let log_det_penalty: Double = adjusted_log_det::<F>(
            &self.rank_s_list,
            adj,
            rho,
            &self.log_pseudo_det_s_list,
        );
        let dp: Double = plus::<F>(fit.deviance, bsb_total);
        let x: DispersionInputs = DispersionInputs {
            lambda: one(),
            bsb: bsb_total,
            tr_hinv_xtwx: count::<F>(fit.p),
            mp: self.mp,
        };
        let phi: Option<Double> = self.profile.dispersion(&family.loss, fit, x);
        match phi {
            None => {
                let ghost q = ValueReading {
                    adj,
                    phi,
                    log_det_h: one(),
                    sat: Seq::empty(),
                    outcome: None,
                };
                assert(self.value_read::<F>(*fit, *family, rho@, q));
                assert(self.scores_with::<F>(*fit, *family, rho@, lit(E_12), None));
                lit(E_12)
            },
            Some(f) => {
                let (log_det_h, outcome) = self.log_det_h::<F>(fit, family, rho, counts);
                let (ls_sum, sat) = sat_sum::<F, L>(&family.loss, &self.data.y, f);
                let ghost q = ValueReading { adj, phi, log_det_h, sat: sat@, outcome: outcome@ };
                assert(self.value_read::<F>(*fit, *family, rho@, q));
                let v: Double = reml::<F>(dp, f, self.mp, log_det_h, log_det_penalty, ls_sum);
                assert(self.scores_with::<F>(*fit, *family, rho@, v, outcome@));
                proof {
                    law_counts_add_up(
                        self.data.observed_on,
                        *old(counts),
                        *old(counts),
                        outcome@,
                        *counts,
                    );
                }
                v
            },
        }
    }

    /// The score at a point comes from a fit there, and is counted.
    pub open spec fn value_counted<F: Arithmetic>(
        &self,
        theta: Seq<Double>,
        v: Double,
        before: ObservedPdCounts,
        after: ObservedPdCounts,
    ) -> bool where B: ShapeInnerBuilder<F, D, S, L, K, V>, P: Profile<F, L> {
        exists|fit: GaussianInnerFit<S>, family: Family<L, K, V>| #[trigger]
            self.fitted_at::<F>(theta, fit, family) && self.scores_counted::<F>(
                fit,
                family,
                self.rho_of(theta),
                v,
                before,
                after,
            )
    }

    /// The score at a point.
    pub fn compute_value<F: Arithmetic>(&self, theta: &Vec<Double>, counts: &mut ObservedPdCounts) -> (r: Result<
        Double,
        GamrsError,
    >) where B: ShapeInnerBuilder<F, D, S, L, K, V>, P: Profile<F, L>
        requires
            lawful::<F>(),
            self.wf(),
            theta@.len() == self.axes(),
        ensures
            match r {
                Ok(v) => self.value_counted::<F>(
                    theta@,
                    v,
                    *old(counts),
                    *final(counts),
                ),
                Err(e) => self.unfitted::<F>(theta@, e) && *final(counts) == *old(counts),
            },
            counted_some(self.data.observed_on, *old(counts), *final(counts)),
    {
        proof {
            assert(with_outcomes(*counts, Seq::<bool>::empty()) == *counts);
        }
        let (fit, family) = match self.fit_inner_at::<F>(theta) {
            Ok(out) => out,
            Err(e) => return Err(e),
        };
        let rho: Vec<Double> = head(theta, self.data.s_list.len());
        let v: Double = self.score_value::<F>(&fit, &family, &rho, counts);
        assert(self.fitted_at::<F>(theta@, fit, family));
        Ok(v)
    }

    /// The scores at some points, and the counts with the outcomes of the observed
    /// curvature in them, one point after the other.
    pub open spec fn values_there<F: Arithmetic>(
        &self,
        points: Seq<Seq<Double>>,
        v: Seq<Double>,
        before: ObservedPdCounts,
        after: ObservedPdCounts,
    ) -> bool where B: ShapeInnerBuilder<F, D, S, L, K, V>, P: Profile<F, L>
        decreases points.len(),
    {
        &&& v.len() == points.len()
        &&& if points.len() == 0 {
            after == before
        } else {
            exists|mid: ObservedPdCounts|
                self.values_there::<F>(points.drop_last(), v.drop_last(), before, mid)
                    && #[trigger] self.value_counted::<F>(points.last(), v.last(), mid, after)
        }
    }

    /// The fit at one of the points failed, after the scores at those before it
    /// were had and counted.
    pub open spec fn values_fail<F: Arithmetic>(
        &self,
        points: Seq<Seq<Double>>,
        e: GamrsError,
        before: ObservedPdCounts,
        after: ObservedPdCounts,
    ) -> bool where B: ShapeInnerBuilder<F, D, S, L, K, V>, P: Profile<F, L> {
        exists|n: int, v: Seq<Double>|
            0 <= n < points.len() && #[trigger] self.values_there::<F>(points.take(n), v, before, after)
                && self.unfitted::<F>(points[n], e)
    }

    /// The scores at some points.
    pub(crate) fn compute_values<F: Arithmetic>(&self, points: &Vec<Vec<Double>>, counts: &mut ObservedPdCounts) -> (r: Result<
        Vec<Double>,
        GamrsError,
    >) where B: ShapeInnerBuilder<F, D, S, L, K, V>, P: Profile<F, L>
        requires
            lawful::<F>(),
            self.wf(),
            forall|i: int| 0 <= i < points@.len() ==> (#[trigger] points@[i])@.len() == self.axes(),
        ensures
            match r {
                Ok(v) => self.values_there::<F>(
                    points_of(points@),
                    v@,
                    *old(counts),
                    *final(counts),
                ),
                Err(e) => self.values_fail::<F>(
                    points_of(points@),
                    e,
                    *old(counts),
                    *final(counts),
                ),
            },
            counted_some(self.data.observed_on, *old(counts), *final(counts)),
    {
        proof {
            assert(with_outcomes(*counts, Seq::<bool>::empty()) == *counts);
        }
        let ghost all = points_of(points@);
        let mut v: Vec<Double> = Vec::new();
        for i in 0..points.len()
            invariant
                lawful::<F>(),
                self.wf(),
                forall|k: int|
                    0 <= k < points@.len() ==> (#[trigger] points@[k])@.len() == self.axes(),
                all == points_of(points@),
                counted_some(self.data.observed_on, *old(counts), *counts),
                self.values_there::<F>(all.take(i as int), v@, *old(counts), *counts),
        {
            let ghost mid = *counts;
            let x: Double = match self.compute_value::<F>(&points[i], counts) {
                Ok(x) => x,
                Err(e) => {
                    assert(self.unfitted::<F>(all[i as int], e));
                    return Err(e);
                },
            };
            let ghost shorter = v@;
            v.push(x);
            proof {
                law_counts_add_up(self.data.observed_on, *old(counts), mid, None, *counts);
                let grown = all.take(i + 1);
                assert(grown.drop_last() =~= all.take(i as int));
                assert(v@.drop_last() =~= shorter);
                assert(self.value_counted::<F>(grown.last(), v@.last(), mid, *counts));
            }
        }
        assert(all.take(all.len() as int) =~= all);
        Ok(v)
    }
}

/// The points that some vectors hold.
pub open spec fn points_of(points: Seq<Vec<Double>>) -> Seq<Seq<Double>> {
    Seq::new(points.len(), |i: int| points[i]@)
}

/// The smoothing parameters of log smoothing parameters.
pub fn lambdas<F: Arithmetic>(rho: &Vec<Double>) -> (r: Vec<Double>)
    requires
        lawful::<F>(),
    ensures
        r@ == lambdas_of::<F>(rho@),
{
    let entry = |j: usize| -> (v: Double)
        requires
            j < rho@.len(),
        ensures
            v == exp::<F>(rho@[j as int]),
        { exp::<F>(rho[j]) };
    let r: Vec<Double> = fill_vec(rho.len(), entry);
    assert(r@ =~= lambdas_of::<F>(rho@));
    r
}

} // verus!
