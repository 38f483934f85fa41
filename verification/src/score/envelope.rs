//! The score in closed form at a converged inner fit, without shape parameters.

use std::marker::PhantomData;

use vstd::prelude::*;

use crate::arith::{count, exp, lawful, ln, minus, over, plus, times, total, total_from, Arithmetic};
use crate::dense::{
    beta_sbeta, beta_sbeta_of, dot, dot_of, mat_mul, mat_mul_of, mat_vec, mat_vec_of, sum_over,
    symmetrised, symmetrised_of, times_vec, times_vec_of, trace_product, trace_product_of,
};
use crate::double::{
    half, lit, one, two, zero, Double, E_12, E_M300, E_M5, MINUS_HALF, MINUS_TWO, PI, THIRTY,
};
use crate::error::GamrsError;
use crate::inner::closed_form::GaussianClosedFormInner;
use crate::inner::linalg::LinearSolver;
use crate::inner::pirls::curvature::all_finite_seq;
use crate::inner::solver::InnerSolver;
use crate::inner::{
    all_finite, copy_penalties, penalties_fit, same_penalties, GaussianInnerFit, TkKKTInputs,
};
use crate::matrix::{fill_vec, grid, Matrix};
use crate::outer::minimize::{borrowed, says, Evaluation, ScoreDerivatives, ScoreMemory};
use crate::outer::step::Bounds;
use crate::score::hess_ift::{b1_column, b1_of, mirror, mirrored};
use crate::score::profile::{DispersionInputs, MgcvTwoSigmaProfile, Profile};
use crate::stats::{count_up, FitStats, FitStatsSnapshot};
use crate::traits::{is_shape, is_square, DenseBackend, Loss};

verus! {

/// The smoothing parameters of log smoothing parameters.
pub open spec fn lambdas_of<F: Arithmetic>(theta: Seq<Double>) -> Seq<Double> {
    Seq::new(theta.len(), |j: int| exp::<F>(theta[j]))
}

/// The quadratic penalty of each term.
pub open spec fn bsb_of<F: Arithmetic>(s_list: Seq<Matrix>, beta: Seq<Double>) -> Seq<Double> {
    Seq::new(s_list.len(), |j: int| beta_sbeta_of::<F>(s_list[j]@, beta))
}

/// `tr(A^-1 S_j)` of each term.
pub open spec fn traces_of<F: Arithmetic>(s_list: Seq<Matrix>, a_inv: Seq<Seq<Double>>) -> Seq<Double> {
    Seq::new(s_list.len(), |j: int| trace_product_of::<F>(a_inv, s_list[j]@))
}

/// `sum_j lambda_j x_j`.
pub open spec fn weighted_of<F: Arithmetic>(lambda: Seq<Double>, x: Seq<Double>) -> Double {
    total::<F>(|j: int| times::<F>(lambda[j], x[j]), lambda.len())
}

/// The log pseudo-determinant of the penalty: `sum_j (rank_j rho_j + log |S_j|+)`.
pub open spec fn log_det_penalty_of<F: Arithmetic>(ranks: Seq<usize>, theta: Seq<Double>, lpd: Seq<Double>) -> Double {
    total::<F>(|j: int| plus::<F>(times::<F>(count::<F>(ranks[j]), theta[j]), lpd[j]), theta.len())
}

/// The score:
/// `Dp / (2 s2) - Mp/2 ln(2 pi s2) + log|H| / 2 - log|lS|+ / 2 - sum ls`.
pub open spec fn reml_of<F: Arithmetic>(
    dp: Double,
    sigma2: Double,
    mp: usize,
    log_det_h: Double,
    log_det_penalty: Double,
    ls_sum: Double,
) -> Double {
    minus::<F>(
        minus::<F>(
            plus::<F>(
                minus::<F>(
                    over::<F>(dp, times::<F>(two(), sigma2)),
                    times::<F>(
                        times::<F>(half(), count::<F>(mp)),
                        ln::<F>(times::<F>(times::<F>(two(), lit(PI)), sigma2)),
                    ),
                ),
                times::<F>(half(), log_det_h),
            ),
            times::<F>(half(), log_det_penalty),
        ),
        ls_sum,
    )
}

/// The score from its parts.
pub fn reml<F: Arithmetic>(
    dp: Double,
    sigma2: Double,
    mp: usize,
    log_det_h: Double,
    log_det_penalty: Double,
    ls_sum: Double,
) -> (r: Double)
    requires
        lawful::<F>(),
    ensures
        r == reml_of::<F>(dp, sigma2, mp, log_det_h, log_det_penalty, ls_sum),
{
    let fit_part: Double = over::<F>(dp, times::<F>(two(), sigma2));
    let scale_part: Double = times::<F>(
        times::<F>(half(), count::<F>(mp)),
        ln::<F>(times::<F>(times::<F>(two(), lit(PI)), sigma2)),
    );
    minus::<F>(
        minus::<F>(
            plus::<F>(minus::<F>(fit_part, scale_part), times::<F>(half(), log_det_h)),
            times::<F>(half(), log_det_penalty),
        ),
        ls_sum,
    )
}

/// The score's derivative along one log smoothing parameter:
/// `l b'Sb / (2 s2) + l tr / 2 - rank / 2`.
pub open spec fn slope_of<F: Arithmetic>(lambda: Double, bsb: Double, tr: Double, rank: usize, sigma2: Double) -> Double {
    minus::<F>(
        plus::<F>(
            over::<F>(times::<F>(lambda, bsb), times::<F>(two(), sigma2)),
            times::<F>(times::<F>(half(), lambda), tr),
        ),
        times::<F>(half(), count::<F>(rank)),
    )
}

/// The score's derivative along one log smoothing parameter.
pub fn slope<F: Arithmetic>(lambda: Double, bsb: Double, tr: Double, rank: usize, sigma2: Double) -> (r: Double)
    requires
        lawful::<F>(),
    ensures
        r == slope_of::<F>(lambda, bsb, tr, rank, sigma2),
{
    minus::<F>(
        plus::<F>(
            over::<F>(times::<F>(lambda, bsb), times::<F>(two(), sigma2)),
            times::<F>(times::<F>(half(), lambda), tr),
        ),
        times::<F>(half(), count::<F>(rank)),
    )
}

/// The change of the weights along one log smoothing parameter, as it enters the
/// log determinant: `sum_i a1_i eta1_i lev_i`.
pub open spec fn weight_chain_of<F: Arithmetic>(a1: Seq<Double>, eta1: Seq<Double>, lev: Seq<Double>) -> Double {
    total::<F>(|i: int| times::<F>(times::<F>(a1[i], eta1[i]), lev[i]), a1.len())
}

/// The change of the weights along one log smoothing parameter.
pub fn weight_chain<F: Arithmetic>(a1: &Vec<Double>, eta1: &Vec<Double>, lev: &Vec<Double>) -> (r: Double)
    requires
        lawful::<F>(),
        eta1@.len() == a1@.len(),
        lev@.len() == a1@.len(),
    ensures
        r == weight_chain_of::<F>(a1@, eta1@, lev@),
{
    let term = |i: usize| -> (v: Double)
        requires
            i < a1@.len(),
        ensures
            v == times::<F>(times::<F>(a1@[i as int], eta1@[i as int]), lev@[i as int]),
        { times::<F>(times::<F>(a1[i], eta1[i]), lev[i]) };
    sum_over::<F, _>(
        a1.len(),
        term,
        Ghost(|i: int| times::<F>(times::<F>(a1@[i], eta1@[i]), lev@[i])),
    )
}

/// The gradient: with the weight chain and the Newton traces where the family
/// brings them in, else with the traces of the fit's own factor.
pub open spec fn gradient_of<F: Arithmetic>(
    lambda: Seq<Double>,
    bsb: Seq<Double>,
    tr: Seq<Double>,
    ranks: Seq<usize>,
    sigma2: Double,
    tk: Option<TkKKTInputs>,
) -> Seq<Double> {
    Seq::new(
        lambda.len(),
        |k: int|
            match tk {
                Some(t) => plus::<F>(
                    slope_of::<F>(
                        lambda[k],
                        bsb[k],
                        t.tr_a_newton_inv_s_per_term@[k],
                        ranks[k],
                        sigma2,
                    ),
                    times::<F>(
                        half(),
                        weight_chain_of::<F>(t.a1@, t.eta1_per_term@[k]@, t.lev_uw@),
                    ),
                ),
                None => slope_of::<F>(lambda[k], bsb[k], tr[k], ranks[k], sigma2),
            },
    )
}

/// The weight-chain inputs have the length of the terms and of each other.
pub open spec fn tk_fits(t: TkKKTInputs, m: nat) -> bool {
    &&& t.eta1_per_term@.len() == m
    &&& t.tr_a_newton_inv_s_per_term@.len() == m
    &&& t.lev_uw@.len() == t.a1@.len()
    &&& forall|k: int| 0 <= k < m ==> (#[trigger] t.eta1_per_term@[k])@.len() == t.a1@.len()
}

fn tk_ok(t: &TkKKTInputs, m: usize) -> (b: bool)
    ensures
        b == tk_fits(*t, m as nat),
{
    if t.eta1_per_term.len() != m || t.tr_a_newton_inv_s_per_term.len() != m || t.lev_uw.len()
        != t.a1.len() {
        return false;
    }
    for k in 0..m
        invariant
            t.eta1_per_term@.len() == m,
            forall|i: int| 0 <= i < k ==> (#[trigger] t.eta1_per_term@[i])@.len() == t.a1@.len(),
    {
        if t.eta1_per_term[k].len() != t.a1.len() {
            return false;
        }
    }
    true
}

/// The gradient.
pub fn gradient<F: Arithmetic>(
    lambda: &Vec<Double>,
    bsb: &Vec<Double>,
    tr: &Vec<Double>,
    ranks: &Vec<usize>,
    sigma2: Double,
    tk: &Option<TkKKTInputs>,
) -> (r: Vec<Double>)
    requires
        lawful::<F>(),
        bsb@.len() == lambda@.len(),
        tr@.len() == lambda@.len(),
        ranks@.len() == lambda@.len(),
        *tk matches Some(t) ==> tk_fits(t, lambda@.len()),
    ensures
        r@ == gradient_of::<F>(lambda@, bsb@, tr@, ranks@, sigma2, *tk),
{
    let m: usize = lambda.len();
    let entry = |k: usize| -> (v: Double)
        requires
            k < m,
        ensures
            v == gradient_of::<F>(lambda@, bsb@, tr@, ranks@, sigma2, *tk)[k as int],
        {
            match tk {
                Some(t) => {
                    assert(t.eta1_per_term@[k as int]@.len() == t.a1@.len());
                    let base: Double = slope::<F>(
                        lambda[k],
                        bsb[k],
                        t.tr_a_newton_inv_s_per_term[k],
                        ranks[k],
                        sigma2,
                    );
                    let chain: Double = weight_chain::<F>(&t.a1, &t.eta1_per_term[k], &t.lev_uw);
                    plus::<F>(base, times::<F>(half(), chain))
                },
                None => slope::<F>(lambda[k], bsb[k], tr[k], ranks[k], sigma2),
            }
        };
    let r: Vec<Double> = fill_vec(m, entry);
    assert(r@ =~= gradient_of::<F>(lambda@, bsb@, tr@, ranks@, sigma2, *tk));
    r
}

/// Sums over the terms of a score.
pub struct TermSums {
    /// Smoothing parameters.
    pub lambda: Vec<Double>,
    /// Quadratic penalties.
    pub bsb: Vec<Double>,
    /// `tr(A^-1 S_j)`.
    pub tr: Vec<Double>,
    /// `sum_j lambda_j b'S_j b`.
    pub bsb_total: Double,
    /// `sum_j lambda_j tr(A^-1 S_j)`.
    pub tr_total: Double,
}

/// Penalties and traces of the terms, and their sums.
pub fn term_sums<F: Arithmetic>(s_list: &Vec<Matrix>, beta: &Vec<Double>, a_inv: &Matrix, theta: &Vec<Double>) -> (r: TermSums)
    requires
        lawful::<F>(),
        penalties_fit(s_list@, beta@.len()),
        a_inv.square(beta@.len()),
        theta@.len() == s_list@.len(),
    ensures
        r.lambda@ == lambdas_of::<F>(theta@),
        r.bsb@ == bsb_of::<F>(s_list@, beta@),
        r.tr@ == traces_of::<F>(s_list@, a_inv@),
        r.bsb_total == weighted_of::<F>(r.lambda@, r.bsb@),
        r.tr_total == weighted_of::<F>(r.lambda@, r.tr@),
{
    let m: usize = s_list.len();
    let lam = |j: usize| -> (v: Double)
        requires
            j < theta@.len(),
        ensures
            v == exp::<F>(theta@[j as int]),
        { exp::<F>(theta[j]) };
    let lambda: Vec<Double> = fill_vec(m, lam);
    assert(lambda@ =~= lambdas_of::<F>(theta@));
    let pen = |j: usize| -> (v: Double)
        requires
            j < s_list@.len(),
        ensures
            v == beta_sbeta_of::<F>(s_list@[j as int]@, beta@),
        {
            assert(s_list@[j as int].square(beta@.len()));
            beta_sbeta::<F>(&s_list[j], beta)
        };
    let bsb: Vec<Double> = fill_vec(m, pen);
    assert(bsb@ =~= bsb_of::<F>(s_list@, beta@));
    let trace = |j: usize| -> (v: Double)
        requires
            j < s_list@.len(),
        ensures
            v == trace_product_of::<F>(a_inv@, s_list@[j as int]@),
        {
            assert(s_list@[j as int].square(beta@.len()));
            trace_product::<F>(a_inv, &s_list[j])
        };
    let tr: Vec<Double> = fill_vec(m, trace);
    assert(tr@ =~= traces_of::<F>(s_list@, a_inv@));
    let bsb_total: Double = dot::<F>(&lambda, &bsb);
    let tr_total: Double = dot::<F>(&lambda, &tr);
    TermSums { lambda, bsb, tr, bsb_total, tr_total }
}

/// The score without shape parameters, over a loss, an inner solver and a
/// convention for the dispersion.
pub struct EnvelopeScore<L: Loss, I, P, D: DenseBackend, S: LinearSolver> {
    /// Inner solver.
    pub inner: I,
    /// Loss.
    pub loss: L,
    /// Convention for the dispersion.
    pub profile: P,
    /// One penalty per smooth term.
    pub s_list: Vec<Matrix>,
    /// Rank of each penalty.
    pub rank_s_list: Vec<usize>,
    /// Dimension of the unpenalised space.
    pub mp: usize,
    /// Log pseudo-determinant of each penalty.
    pub log_pseudo_det_s_list: Vec<Double>,
    /// Response.
    pub y: Vec<Double>,
    /// Factorisations.
    pub backend: PhantomData<D>,
    /// Linear solver of the inner fits.
    pub solver: PhantomData<S>,
}

/// The score of a Gaussian response: closed-form fits, profiled dispersion.
pub type GaussianClosedFormScore<L, D, S> = EnvelopeScore<
    L,
    GaussianClosedFormInner,
    MgcvTwoSigmaProfile,
    D,
    S,
>;

impl<L: Loss, D: DenseBackend, S: LinearSolver> GaussianClosedFormScore<L, D, S> {
    /// The score of a Gaussian response.
    pub fn new<F: Arithmetic>(
        x_design: Matrix,
        y: Vec<Double>,
        s_list: Vec<Matrix>,
        weights: Option<Vec<Double>>,
        loss: L,
        rank_s_list: Vec<usize>,
        mp: usize,
        log_pseudo_det_s_list: Vec<Double>,
    ) -> (r: GaussianClosedFormScore<L, D, S>)
        requires
            lawful::<F>(),
            x_design.shape(y@.len(), x_design.cols as nat),
            weights matches Some(v) ==> v@.len() == y@.len(),
            penalties_fit(s_list@, x_design.cols as nat),
        ensures
            r.inner.wf::<F>(),
            r.inner.x_design == x_design,
            r.inner.y@ == y@,
            r.inner.weights == weights,
            same_penalties(r.inner.s_list@, s_list@),
            r.loss == loss,
            r.y == y,
            r.s_list == s_list,
            r.rank_s_list == rank_s_list,
            r.mp == mp,
            r.log_pseudo_det_s_list == log_pseudo_det_s_list,
    {
        let own_y: Vec<Double> = y.clone();
        assert(own_y@ =~= y@);
        let own_s: Vec<Matrix> = copy_penalties(&s_list, x_design.cols);
        let inner: GaussianClosedFormInner = GaussianClosedFormInner::new::<F>(
            x_design,
            own_y,
            weights,
            own_s,
        );
        EnvelopeScore::with_inner(
            inner,
            loss,
            MgcvTwoSigmaProfile,
            y,
            s_list,
            rank_s_list,
            mp,
            log_pseudo_det_s_list,
        )
    }
}

/// What is kept of an accepted point to start trial fits from.
pub struct EnvelopeAcceptedState {
    /// Coefficients.
    pub beta: Vec<Double>,
    /// Derivative of the coefficients along each log smoothing parameter.
    pub b1: Vec<Vec<Double>>,
    /// Smoothing parameters.
    pub lambda: Vec<Double>,
}

/// What the Hessian needs from the evaluation of the score.
pub struct HessInputs {
    /// Smoothing parameters.
    pub lambda_j: Vec<Double>,
    /// Quadratic penalties.
    pub bsb_per_term: Vec<Double>,
    /// `tr(A^-1 S_j)`.
    pub tr_hinv_s_per_term: Vec<Double>,
    /// Dispersion.
    pub sigma2: Double,
    /// Derivatives of the dispersion; `None` where no closed form is known.
    pub dsigma2_drho: Option<Vec<Double>>,
    /// The gradient carries the weight-chain term.
    pub has_tk_kkt: bool,
    /// `A^-1`; empty where the fit is not physical.
    pub a_inv: Matrix,
}

/// What solver, family and profile answer about a fit.
pub struct ScoreReading {
    /// `A^-1`.
    pub a_inv: Matrix,
    /// The log determinant in the score.
    pub log_det_h: Double,
    /// Dispersion; `None` where the fit is not physical.
    pub sigma2: Option<Double>,
    /// Saturated log-likelihoods.
    pub sat: Seq<Double>,
    /// Weight-chain inputs.
    pub tk: Option<TkKKTInputs>,
    /// Derivatives of the dispersion.
    pub dsigma2: Option<Vec<Double>>,
}

/// The log determinant that a solver gives in place of its factor's, else the
/// factor's own.
pub open spec fn log_det_read<F: Arithmetic, D: DenseBackend, S: LinearSolver, I: InnerSolver<F, D, S>>(
    inner: I,
    fit: GaussianInnerFit<S>,
    theta: Seq<Double>,
    r: Double,
) -> bool {
    exists|lazy: Option<Double>| #[trigger]
        inner.newton_log_det(fit.mu@, theta, lazy) && match lazy {
            Some(v) => r == v,
            None => call_ensures(S::logdet, (&fit.a_factor,), r),
        }
}

/// The saturated log-likelihoods of a response at a dispersion, as the loss
/// answers.
pub open spec fn sat_read<L: Loss>(loss: L, y: Seq<Double>, sigma2: Double, sat: Seq<Double>) -> bool {
    &&& sat.len() == y.len()
    &&& forall|i: int|
        0 <= i < y.len() ==> call_ensures(L::saturated_log_lik, (&loss, y[i], sigma2), #[trigger] sat[i])
}

/// Sums the saturated log-likelihoods of a response at a dispersion.
pub fn sat_sum<F: Arithmetic, L: Loss>(loss: &L, y: &Vec<Double>, sigma2: Double) -> (r: (Double, Ghost<Seq<Double>>))
    requires
        lawful::<F>(),
    ensures
        sat_read::<L>(*loss, y@, sigma2, r.1@),
        r.0 == total::<F>(|i: int| r.1@[i], y@.len()),
{
    let mut sat: Vec<Double> = Vec::new();
    for i in 0..y.len()
        invariant
            sat@.len() == i,
            forall|k: int|
                0 <= k < i ==> call_ensures(
                    L::saturated_log_lik,
                    (loss, y@[k], sigma2),
                    #[trigger] sat@[k],
                ),
    {
        sat.push(loss.saturated_log_lik(y[i], sigma2));
    }
    let term = |i: usize| -> (v: Double)
        requires
            i < sat@.len(),
        ensures
            v == sat@[i as int],
        { sat[i] };
    let ghost all = sat@;
    let s: Double = sum_over::<F, _>(y.len(), term, Ghost(|i: int| all[i]));
    (s, Ghost(all))
}

/// An error about a fit whose parts do not have the sizes they should have.
pub open spec fn misfit(e: GamrsError) -> bool {
    says(e, "fit has the wrong size"@)
}

impl<L: Loss, I, P, D: DenseBackend, S: LinearSolver> EnvelopeScore<L, I, P, D, S> {
    /// Ranks and log determinants are those of the penalties.
    pub open spec fn lists_fit(&self) -> bool {
        &&& self.rank_s_list@.len() == self.s_list@.len()
        &&& self.log_pseudo_det_s_list@.len() == self.s_list@.len()
    }

    /// Puts a score together.
    pub fn with_inner(
        inner: I,
        loss: L,
        profile: P,
        y: Vec<Double>,
        s_list: Vec<Matrix>,
        rank_s_list: Vec<usize>,
        mp: usize,
        log_pseudo_det_s_list: Vec<Double>,
    ) -> (r: EnvelopeScore<L, I, P, D, S>)
        ensures
            r.inner == inner,
            r.loss == loss,
            r.profile == profile,
            r.y == y,
            r.s_list == s_list,
            r.rank_s_list == rank_s_list,
            r.mp == mp,
            r.log_pseudo_det_s_list == log_pseudo_det_s_list,
    {
        EnvelopeScore {
            inner,
            loss,
            profile,
            s_list,
            rank_s_list,
            mp,
            log_pseudo_det_s_list,
            y,
            backend: PhantomData,
            solver: PhantomData,
        }
    }

    /// What the dispersion is computed from.
    pub open spec fn dispersion_inputs<F: Arithmetic>(
        &self,
        theta: Seq<Double>,
        fit: GaussianInnerFit<S>,
        a_inv: Seq<Seq<Double>>,
    ) -> DispersionInputs {
        let lambda = lambdas_of::<F>(theta);
        DispersionInputs {
            lambda: one(),
            bsb: weighted_of::<F>(lambda, bsb_of::<F>(self.s_list@, fit.beta@)),
            tr_hinv_xtwx: minus::<F>(
                count::<F>(fit.p),
                weighted_of::<F>(lambda, traces_of::<F>(self.s_list@, a_inv)),
            ),
            mp: self.mp,
        }
    }

    /// The sizes of a fit and its inverse agree with the penalties.
    pub open spec fn sized(&self, fit: GaussianInnerFit<S>, a_inv: Matrix) -> bool {
        &&& fit.beta@.len() == fit.p
        &&& a_inv.square(fit.p as nat)
        &&& penalties_fit(self.s_list@, fit.p as nat)
    }

    /// What was read about a fit.
    pub open spec fn read<F: Arithmetic>(&self, theta: Seq<Double>, fit: GaussianInnerFit<S>, q: ScoreReading) -> bool where
        I: InnerSolver<F, D, S>,
        P: Profile<F, L>,
     {
        &&& call_ensures(S::invert, (&fit.a_factor,), q.a_inv)
        &&& log_det_read::<F, D, S, I>(self.inner, fit, theta, q.log_det_h)
        &&& self.profile.disperses(
            self.loss,
            fit.n,
            fit.deviance,
            self.dispersion_inputs::<F>(theta, fit, q.a_inv@),
            q.sigma2,
        )
        &&& match q.sigma2 {
            Some(s2) => {
                &&& sat_read::<L>(self.loss, self.y@, s2, q.sat)
                &&& self.inner.tk_inputs(fit.mu@, fit.beta@, theta, q.tk)
                &&& self.profile.slopes(
                    self.loss,
                    fit.n,
                    bsb_of::<F>(self.s_list@, fit.beta@),
                    lambdas_of::<F>(theta),
                    self.mp,
                    q.dsigma2,
                )
            },
            None => q.tk is None && q.dsigma2 is None,
        }
    }

    /// The score at a reading: 1e12 where the fit is not physical.
    pub open spec fn value_at<F: Arithmetic>(&self, theta: Seq<Double>, fit: GaussianInnerFit<S>, q: ScoreReading) -> Double {
        match q.sigma2 {
            Some(s2) => reml_of::<F>(
                plus::<F>(
                    fit.deviance,
                    weighted_of::<F>(lambdas_of::<F>(theta), bsb_of::<F>(self.s_list@, fit.beta@)),
                ),
                s2,
                self.mp,
                q.log_det_h,
                log_det_penalty_of::<F>(self.rank_s_list@, theta, self.log_pseudo_det_s_list@),
                total::<F>(|i: int| q.sat[i], self.y@.len()),
            ),
            None => lit(E_12),
        }
    }

    /// The gradient at a reading: zero where the fit is not physical.
    pub open spec fn grad_at<F: Arithmetic>(&self, theta: Seq<Double>, fit: GaussianInnerFit<S>, q: ScoreReading) -> Seq<
        Double,
    > {
        match q.sigma2 {
            Some(s2) => gradient_of::<F>(
                lambdas_of::<F>(theta),
                bsb_of::<F>(self.s_list@, fit.beta@),
                traces_of::<F>(self.s_list@, q.a_inv@),
                self.rank_s_list@,
                s2,
                q.tk,
            ),
            None => Seq::new(theta.len(), |j: int| zero()),
        }
    }

    /// What the Hessian gets from a reading.
    pub open spec fn hin_at<F: Arithmetic>(
        &self,
        theta: Seq<Double>,
        fit: GaussianInnerFit<S>,
        q: ScoreReading,
        h: HessInputs,
    ) -> bool {
        &&& h.lambda_j@ == lambdas_of::<F>(theta)
        &&& h.has_tk_kkt == q.tk is Some
        &&& h.dsigma2_drho == q.dsigma2
        &&& match q.sigma2 {
            Some(s2) => {
                &&& h.bsb_per_term@ == bsb_of::<F>(self.s_list@, fit.beta@)
                &&& h.tr_hinv_s_per_term@ == traces_of::<F>(self.s_list@, q.a_inv@)
                &&& h.sigma2 == s2
                &&& h.a_inv == q.a_inv
            },
            None => {
                &&& h.bsb_per_term@ == Seq::new(theta.len(), |j: int| zero())
                &&& h.tr_hinv_s_per_term@ == Seq::new(theta.len(), |j: int| zero())
                &&& h.sigma2 == one()
                &&& h.a_inv.square(0)
            },
        }
    }

    /// The score, its gradient and the inputs of its Hessian at a fit, for some
    /// reading of the fit.
    pub open spec fn scored<F: Arithmetic>(
        &self,
        theta: Seq<Double>,
        fit: GaussianInnerFit<S>,
        v: Double,
        g: Seq<Double>,
        h: HessInputs,
    ) -> bool where I: InnerSolver<F, D, S>, P: Profile<F, L> {
        exists|q: ScoreReading| #[trigger]
            self.read::<F>(theta, fit, q) && self.sized(fit, q.a_inv) && v == self.value_at::<F>(
                theta,
                fit,
                q,
            ) && g == self.grad_at::<F>(theta, fit, q) && self.hin_at::<F>(theta, fit, q, h)
                && self.reading_fits(q)
    }

    /// The answers have the length of the terms.
    pub open spec fn reading_fits(&self, q: ScoreReading) -> bool {
        &&& (q.tk matches Some(t) ==> tk_fits(t, self.s_list@.len()))
        &&& (q.dsigma2 matches Some(v) ==> v@.len() == self.s_list@.len())
    }

    /// Parts of a fit, or answers about it, do not have the sizes they should
    /// have.
    pub open spec fn unscored<F: Arithmetic>(&self, theta: Seq<Double>, fit: GaussianInnerFit<S>) -> bool where
        I: InnerSolver<F, D, S>,
        P: Profile<F, L>,
     {
        ||| exists|a_inv: Matrix| #[trigger]
            call_ensures(S::invert, (&fit.a_factor,), a_inv) && !self.sized(fit, a_inv)
        ||| exists|q: ScoreReading| #[trigger] self.read::<F>(theta, fit, q) && !self.reading_fits(q)
    }

    fn sizes_ok(&self, fit: &GaussianInnerFit<S>, a_inv: &Matrix) -> (b: bool)
        ensures
            b == self.sized(*fit, *a_inv),
    {
        if fit.beta.len() != fit.p || !is_square(a_inv, fit.p) {
            return false;
        }
        for j in 0..self.s_list.len()
            invariant
                forall|k: int| 0 <= k < j ==> (#[trigger] self.s_list@[k]).square(fit.p as nat),
        {
            if !is_square(&self.s_list[j], fit.p) {
                assert(!self.s_list@[j as int].square(fit.p as nat));
                return false;
            }
        }
        true
    }

    fn penalty_log_det<F: Arithmetic>(&self, theta: &Vec<Double>) -> (r: Double)
        requires
            lawful::<F>(),
            self.lists_fit(),
            theta@.len() == self.s_list@.len(),
        ensures
            r == log_det_penalty_of::<F>(self.rank_s_list@, theta@, self.log_pseudo_det_s_list@),
    {
        let term = |j: usize| -> (v: Double)
            requires
                j < theta@.len(),
            ensures
                v == plus::<F>(
                    times::<F>(count::<F>(self.rank_s_list@[j as int]), theta@[j as int]),
                    self.log_pseudo_det_s_list@[j as int],
                ),
            {
                plus::<F>(
                    times::<F>(count::<F>(self.rank_s_list[j]), theta[j]),
                    self.log_pseudo_det_s_list[j],
                )
            };
        sum_over::<F, _>(
            theta.len(),
            term,
            Ghost(
                |j: int|
                    plus::<F>(
                        times::<F>(count::<F>(self.rank_s_list@[j]), theta@[j]),
                        self.log_pseudo_det_s_list@[j],
                    ),
            ),
        )
    }

    /// The score, its gradient and the inputs of its Hessian at a converged fit.
    pub fn compute_value_grad_from_fit<F: Arithmetic>(&self, theta: &Vec<Double>, inner: &GaussianInnerFit<S>) -> (r: Result<
        (Double, Vec<Double>, HessInputs),
        GamrsError,
    >) where I: InnerSolver<F, D, S>, P: Profile<F, L>
        requires
            lawful::<F>(),
            self.lists_fit(),
            self.inner.ready(),
            self.inner.terms() == self.s_list@.len(),
            theta@.len() == self.s_list@.len(),
        ensures
            match r {
                Ok(out) => self.scored::<F>(theta@, *inner, out.0, out.1@, out.2) && out.1@.len()
                    == theta@.len(),
                Err(e) => misfit(e) && self.unscored::<F>(theta@, *inner),
            },
    {
        let m: usize = theta.len();
        let a_inv: Matrix = inner.a_inv();
        if !self.sizes_ok(inner, &a_inv) {
            return Err(GamrsError::InvalidParameter("fit has the wrong size".to_owned()));
        }
        let sums: TermSums = term_sums::<F>(&self.s_list, &inner.beta, &a_inv, theta);
        let tr_hinv_xtwx: Double = minus::<F>(count::<F>(inner.p), sums.tr_total);
        let lazy: Option<Double> = self.inner.lazy_newton_log_det_h(inner, theta);
        let log_det_h: Double = match lazy {
            Some(v) => v,
            None => inner.log_det_a(),
        };
        assert(log_det_read::<F, D, S, I>(self.inner, *inner, theta@, log_det_h));
        let log_det_penalty: Double = self.penalty_log_det::<F>(theta);
        let x: DispersionInputs = DispersionInputs {
            lambda: one(),
            bsb: sums.bsb_total,
            tr_hinv_xtwx,
            mp: self.mp,
        };
        assert(x == self.dispersion_inputs::<F>(theta@, *inner, a_inv@));
        let sigma2: Option<Double> = self.profile.dispersion(&self.loss, inner, x);
        match sigma2 {
            None => {
                let nought = |j: usize| -> (v: Double)
                    ensures
                        v == zero(),
                    { zero() };
                let g: Vec<Double> = fill_vec(m, nought);
                let b: Vec<Double> = fill_vec(m, nought);
                let t: Vec<Double> = fill_vec(m, nought);
                assert(g@ =~= Seq::new(theta@.len(), |j: int| zero()));
                assert(b@ =~= Seq::new(theta@.len(), |j: int| zero()));
                assert(t@ =~= Seq::new(theta@.len(), |j: int| zero()));
                let h: HessInputs = HessInputs {
                    lambda_j: sums.lambda,
                    bsb_per_term: b,
                    tr_hinv_s_per_term: t,
                    sigma2: one(),
                    dsigma2_drho: None,
                    has_tk_kkt: false,
                    a_inv: Matrix::zeros(0, 0),
                };
                proof {
                    let q = ScoreReading {
                        a_inv,
                        log_det_h,
                        sigma2,
                        sat: Seq::empty(),
                        tk: None,
                        dsigma2: None,
                    };
                    assert(self.read::<F>(theta@, *inner, q));
                    assert(self.hin_at::<F>(theta@, *inner, q, h));
                }
                Ok((lit(E_12), g, h))
            },
            Some(s2) => {
                let dp: Double = plus::<F>(inner.deviance, sums.bsb_total);
                let (ls_sum, sat) = sat_sum::<F, L>(&self.loss, &self.y, s2);
                let v: Double = reml::<F>(dp, s2, self.mp, log_det_h, log_det_penalty, ls_sum);
                let tk: Option<TkKKTInputs> = self.inner.lazy_tk_kkt_inputs(inner, theta);
                let dsigma2: Option<Vec<Double>> = self.profile.dispersion_drho(
                    &self.loss,
                    inner,
                    &sums.bsb,
                    &sums.lambda,
                    self.mp,
                );
                let ghost q = ScoreReading {
                    a_inv,
                    log_det_h,
                    sigma2,
                    sat: sat@,
                    tk,
                    dsigma2,
                };
                assert(self.read::<F>(theta@, *inner, q));
                let tk_sized: bool = match &tk {
                    Some(t) => tk_ok(t, m),
                    None => true,
                };
                let ds_sized: bool = match &dsigma2 {
                    Some(d) => d.len() == m,
                    None => true,
                };
                if !tk_sized || !ds_sized {
                    assert(!self.reading_fits(q));
                    return Err(GamrsError::InvalidParameter("fit has the wrong size".to_owned()));
                }
                let g: Vec<Double> = gradient::<F>(
                    &sums.lambda,
                    &sums.bsb,
                    &sums.tr,
                    &self.rank_s_list,
                    s2,
                    &tk,
                );
                let h: HessInputs = HessInputs {
                    lambda_j: sums.lambda,
                    bsb_per_term: sums.bsb,
                    tr_hinv_s_per_term: sums.tr,
                    sigma2: s2,
                    dsigma2_drho: dsigma2,
                    has_tk_kkt: tk.is_some(),
                    a_inv,
                };
                assert(self.hin_at::<F>(theta@, *inner, q, h));
                assert(g@ == self.grad_at::<F>(theta@, *inner, q));
                assert(v == self.value_at::<F>(theta@, *inner, q));
                Ok((v, g, h))
            },
        }
    }
}

/// The Hessian in closed form at a fit.
pub struct AnalyticHessian<'a> {
    /// One penalty per smooth term.
    pub s_list: &'a Vec<Matrix>,
    /// Coefficients.
    pub beta: &'a Vec<Double>,
    /// What the evaluation of the score left.
    pub hin: &'a HessInputs,
    /// Derivatives of the dispersion.
    pub dsigma2: &'a Vec<Double>,
    /// Derivatives of the weights and the design, where the change of the weights
    /// counts.
    pub chain: Option<(&'a Vec<Double>, &'a Matrix)>,
}

impl<'a> AnalyticHessian<'a> {
    /// The sizes agree.
    pub open spec fn wf(&self) -> bool {
        let m = self.s_list@.len();
        let p = self.beta@.len();
        &&& penalties_fit(self.s_list@, p)
        &&& self.hin.a_inv.square(p)
        &&& self.hin.lambda_j@.len() == m
        &&& self.hin.bsb_per_term@.len() == m
        &&& self.hin.tr_hinv_s_per_term@.len() == m
        &&& self.dsigma2@.len() == m
        &&& (self.chain matches Some(c) ==> c.1.shape(c.0@.len(), p))
    }

    /// `S_j b`.
    pub open spec fn s_beta<F: Arithmetic>(&self, j: int) -> Seq<Double> {
        mat_vec_of::<F>(self.s_list@[j]@, self.beta@)
    }

    /// `A^-1 S_j b`.
    pub open spec fn ainv_s_beta<F: Arithmetic>(&self, j: int) -> Seq<Double> {
        mat_vec_of::<F>(self.hin.a_inv@, self.s_beta::<F>(j))
    }

    /// `A^-1 S_j`.
    pub open spec fn ainv_s<F: Arithmetic>(&self, j: int) -> Seq<Seq<Double>> {
        mat_mul_of::<F>(self.hin.a_inv@, self.s_list@[j]@, self.beta@.len())
    }

    /// `-lambda_i X A^-1 S_i b`.
    pub open spec fn xdbeta<F: Arithmetic>(&self, x: Seq<Seq<Double>>, i: int) -> Seq<Double> {
        times_vec_of::<F>(
            self.hin.lambda_j@[i].neg_spec(),
            mat_vec_of::<F>(x, self.ainv_s_beta::<F>(i)),
        )
    }

    /// The diagonal of `X A^-1 S_j A^-1 X'`.
    pub open spec fn lev<F: Arithmetic>(&self, x: Seq<Seq<Double>>, j: int) -> Seq<Double> {
        let p = self.beta@.len();
        let xmj = mat_mul_of::<F>(mat_mul_of::<F>(x, self.ainv_s::<F>(j), p), self.hin.a_inv@, p);
        Seq::new(x.len(), |k: int| dot_of::<F>(xmj[k], x[k]))
    }

    /// `sum_k dw_k xdbeta_ik lev_jk`.
    pub open spec fn weight_sum<F: Arithmetic>(&self, dw: Seq<Double>, x: Seq<Seq<Double>>, i: int, j: int) -> Double {
        weight_chain_of::<F>(dw, self.xdbeta::<F>(x, i), self.lev::<F>(x, j))
    }

    /// The share of the change of the weights, symmetrised.
    pub open spec fn weight_term<F: Arithmetic>(&self, i: int, j: int) -> Double {
        match self.chain {
            Some(c) => times::<F>(
                half(),
                plus::<F>(
                    times::<F>(
                        times::<F>(lit(MINUS_HALF), self.hin.lambda_j@[j]),
                        self.weight_sum::<F>(c.0@, c.1@, i, j),
                    ),
                    times::<F>(
                        times::<F>(lit(MINUS_HALF), self.hin.lambda_j@[i]),
                        self.weight_sum::<F>(c.0@, c.1@, j, i),
                    ),
                ),
            ),
            None => zero(),
        }
    }

    /// The curvature of the log determinant at fixed weights.
    pub open spec fn trace_term<F: Arithmetic>(&self, i: int, j: int) -> Double {
        let cross = times::<F>(
            times::<F>(self.hin.lambda_j@[i].neg_spec(), self.hin.lambda_j@[j]),
            trace_product_of::<F>(self.ainv_s::<F>(i), self.ainv_s::<F>(j)),
        );
        if i == j {
            plus::<F>(
                cross,
                times::<F>(self.hin.lambda_j@[i], self.hin.tr_hinv_s_per_term@[i]),
            )
        } else {
            cross
        }
    }

    /// The curvature of the penalised deviance at a fixed dispersion.
    pub open spec fn fit_term<F: Arithmetic>(&self, i: int, j: int) -> Double {
        let cross = times::<F>(
            times::<F>(
                times::<F>(lit(MINUS_TWO), self.hin.lambda_j@[i]),
                self.hin.lambda_j@[j],
            ),
            dot_of::<F>(self.s_beta::<F>(i), self.ainv_s_beta::<F>(j)),
        );
        let d = if i == j {
            plus::<F>(cross, times::<F>(self.hin.lambda_j@[j], self.hin.bsb_per_term@[j]))
        } else {
            cross
        };
        over::<F>(d, times::<F>(two(), self.hin.sigma2))
    }

    /// The share of the dispersion:
    /// `-(lambda_j b'S_j b) / (2 s2^2) ds2/drho_i`.
    pub open spec fn scale_term<F: Arithmetic>(&self, i: int, j: int) -> Double {
        times::<F>(
            over::<F>(
                times::<F>(self.hin.lambda_j@[j], self.hin.bsb_per_term@[j]).neg_spec(),
                times::<F>(times::<F>(two(), self.hin.sigma2), self.hin.sigma2),
            ),
            self.dsigma2@[i],
        )
    }

    /// The Hessian's entry for `i <= j`.
    pub open spec fn entry<F: Arithmetic>(&self, i: int, j: int) -> Double {
        plus::<F>(
            plus::<F>(
                plus::<F>(
                    times::<F>(half(), self.trace_term::<F>(i, j)),
                    self.weight_term::<F>(i, j),
                ),
                self.fit_term::<F>(i, j),
            ),
            self.scale_term::<F>(i, j),
        )
    }

    /// The Hessian: the entries with `i <= j`, mirrored.
    pub open spec fn hessian<F: Arithmetic>(&self) -> Seq<Seq<Double>> {
        mirrored(self.s_list@.len(), |i: int, j: int| self.entry::<F>(i, j))
    }

    fn leverage<F: Arithmetic>(&self, x: &Matrix, ainv_s: &Matrix, Ghost(j): Ghost<int>) -> (r: Vec<Double>)
        requires
            lawful::<F>(),
            self.wf(),
            x.shape(x@.len(), self.beta@.len()),
            ainv_s.square(self.beta@.len()),
            ainv_s@ == self.ainv_s::<F>(j),
        ensures
            r@ == self.lev::<F>(x@, j),
    {
        let xs: Matrix = mat_mul::<F>(x, ainv_s);
        let xmj: Matrix = mat_mul::<F>(&xs, &self.hin.a_inv);
        let entry = |k: usize| -> (v: Double)
            requires
                k < x@.len(),
            ensures
                v == dot_of::<F>(xmj@[k as int], x@[k as int]),
            { dot::<F>(&xmj.rows[k], &x.rows[k]) };
        let r: Vec<Double> = fill_vec(x.rows.len(), entry);
        assert(r@ =~= self.lev::<F>(x@, j));
        r
    }

    /// Computes the Hessian.
    pub fn compute<F: Arithmetic>(&self) -> (r: Matrix)
        requires
            lawful::<F>(),
            self.wf(),
        ensures
            r.square(self.s_list@.len()),
            r@ == self.hessian::<F>(),
    {
        let m: usize = self.s_list.len();
        let p: usize = self.beta.len();
        let mut s_beta: Vec<Vec<Double>> = Vec::new();
        let mut ainv_s_beta: Vec<Vec<Double>> = Vec::new();
        let mut ainv_s: Vec<Matrix> = Vec::new();
        for j in 0..m
            invariant
                lawful::<F>(),
                self.wf(),
                m == self.s_list@.len(),
                p == self.beta@.len(),
                s_beta@.len() == j,
                ainv_s_beta@.len() == j,
                ainv_s@.len() == j,
                forall|i: int| 0 <= i < j ==> (#[trigger] s_beta@[i])@ == self.s_beta::<F>(i),
                forall|i: int| 0 <= i < j ==> (#[trigger] ainv_s_beta@[i])@ == self.ainv_s_beta::<F>(i),
                forall|i: int|
                    0 <= i < j ==> (#[trigger] ainv_s@[i])@ == self.ainv_s::<F>(i) && ainv_s@[i].square(
                        p as nat,
                    ),
        {
            assert(self.s_list@[j as int].square(self.beta@.len()));
            let sb: Vec<Double> = mat_vec::<F>(&self.s_list[j], self.beta);
            ainv_s_beta.push(mat_vec::<F>(&self.hin.a_inv, &sb));
            s_beta.push(sb);
            ainv_s.push(mat_mul::<F>(&self.hin.a_inv, &self.s_list[j]));
        }
        let mut xdbeta: Vec<Vec<Double>> = Vec::new();
        let mut lev: Vec<Vec<Double>> = Vec::new();
        if let Some(c) = self.chain {
            for j in 0..m
                invariant
                    lawful::<F>(),
                    self.wf(),
                    self.chain == Some(c),
                    m == self.s_list@.len(),
                    p == self.beta@.len(),
                    ainv_s_beta@.len() == m,
                    ainv_s@.len() == m,
                    xdbeta@.len() == j,
                    lev@.len() == j,
                    forall|i: int|
                        0 <= i < m ==> (#[trigger] ainv_s_beta@[i])@ == self.ainv_s_beta::<F>(i),
                    forall|i: int|
                        0 <= i < m ==> (#[trigger] ainv_s@[i])@ == self.ainv_s::<F>(i)
                            && ainv_s@[i].square(p as nat),
                    forall|i: int| 0 <= i < j ==> (#[trigger] xdbeta@[i])@ == self.xdbeta::<F>(c.1@, i),
                    forall|i: int| 0 <= i < j ==> (#[trigger] lev@[i])@ == self.lev::<F>(c.1@, i),
            {
                assert(self.s_list@[j as int].square(self.beta@.len()));
                assert(ainv_s_beta@[j as int]@ == self.ainv_s_beta::<F>(j as int));
                assert(ainv_s@[j as int]@ == self.ainv_s::<F>(j as int));
                let v: Vec<Double> = mat_vec::<F>(c.1, &ainv_s_beta[j]);
                xdbeta.push(times_vec::<F>(self.hin.lambda_j[j].neg(), &v));
                lev.push(self.leverage::<F>(c.1, &ainv_s[j], Ghost(j as int)));
            }
        }
        let entry = |i: usize, j: usize| -> (v: Double)
            requires
                i <= j < m,
            ensures
                v == self.entry::<F>(i as int, j as int),
            {
                assert(self.s_list@[i as int].square(self.beta@.len()));
                assert(self.s_list@[j as int].square(self.beta@.len()));
                assert(s_beta@[i as int]@ == self.s_beta::<F>(i as int));
                assert(ainv_s_beta@[j as int]@ == self.ainv_s_beta::<F>(j as int));
                assert(ainv_s@[i as int]@ == self.ainv_s::<F>(i as int));
                assert(ainv_s@[j as int]@ == self.ainv_s::<F>(j as int));
                let li: Double = self.hin.lambda_j[i];
                let lj: Double = self.hin.lambda_j[j];
                let tr_prod: Double = trace_product::<F>(&ainv_s[i], &ainv_s[j]);
                let mut term_trace: Double = times::<F>(times::<F>(li.neg(), lj), tr_prod);
                if i == j {
                    term_trace = plus::<F>(
                        term_trace,
                        times::<F>(li, self.hin.tr_hinv_s_per_term[i]),
                    );
                }
                let term_w: Double = match self.chain {
                    Some(c) => {
                        let dw: &Vec<Double> = c.0;
                        assert(xdbeta@[i as int]@ == self.xdbeta::<F>(c.1@, i as int));
                        assert(xdbeta@[j as int]@ == self.xdbeta::<F>(c.1@, j as int));
                        assert(lev@[i as int]@ == self.lev::<F>(c.1@, i as int));
                        assert(lev@[j as int]@ == self.lev::<F>(c.1@, j as int));
                        let s_ij: Double = weight_chain::<F>(dw, &xdbeta[i], &lev[j]);
                        let s_ji: Double = weight_chain::<F>(dw, &xdbeta[j], &lev[i]);
                        let dj: Double = times::<F>(times::<F>(lit(MINUS_HALF), lj), s_ij);
                        let di: Double = times::<F>(times::<F>(lit(MINUS_HALF), li), s_ji);
                        times::<F>(half(), plus::<F>(dj, di))
                    },
                    None => zero(),
                };
                let term1: Double = plus::<F>(times::<F>(half(), term_trace), term_w);
                let cross: Double = dot::<F>(&s_beta[i], &ainv_s_beta[j]);
                let mut d_bj: Double = times::<F>(
                    times::<F>(times::<F>(lit(MINUS_TWO), li), lj),
                    cross,
                );
                if i == j {
                    d_bj = plus::<F>(d_bj, times::<F>(lj, self.hin.bsb_per_term[j]));
                }
                let term2: Double = over::<F>(d_bj, times::<F>(two(), self.hin.sigma2));
                let term3: Double = times::<F>(
                    over::<F>(
                        times::<F>(lj, self.hin.bsb_per_term[j]).neg(),
                        times::<F>(times::<F>(two(), self.hin.sigma2), self.hin.sigma2),
                    ),
                    self.dsigma2[i],
                );
                plus::<F>(plus::<F>(term1, term2), term3)
            };
        mirror(m, entry, Ghost(|i: int, j: int| self.entry::<F>(i, j)))
    }
}

/// The counters after an evaluation: a propagated start tried and used, and an
/// inner fit of so many iterations.
pub open spec fn tallied(
    before: Option<FitStats>,
    after: Option<FitStats>,
    attempt: bool,
    hit: bool,
    pirls: Option<usize>,
) -> bool {
    match before {
        Some(b) => after matches Some(a) && a@ == (FitStatsSnapshot {
            no_refresh_attempts: if attempt {
                count_up(b@.no_refresh_attempts, 1)
            } else {
                b@.no_refresh_attempts
            },
            no_refresh_hits: if hit {
                count_up(b@.no_refresh_hits, 1)
            } else {
                b@.no_refresh_hits
            },
            inner_pirls_calls: if pirls is Some {
                count_up(b@.inner_pirls_calls, 1)
            } else {
                b@.inner_pirls_calls
            },
            inner_pirls_iterations_total: if pirls is Some {
                count_up(b@.inner_pirls_iterations_total, pirls->0)
            } else {
                b@.inner_pirls_iterations_total
            },
            ..b@
        }),
        None => after is None,
    }
}

/// Counts an evaluation.
pub fn tally(before: Option<FitStats>, attempt: bool, hit: bool, pirls: Option<usize>) -> (after: Option<FitStats>)
    ensures
        tallied(before, after, attempt, hit, pirls),
{
    match before {
        Some(b) => {
            let mut s: FitStats = b;
            if attempt {
                s.bump_no_refresh_attempt();
            }
            if hit {
                s.bump_no_refresh_hit();
            }
            if let Some(n) = pirls {
                s.record_pirls_call(n);
            }
            Some(s)
        },
        None => None,
    }
}

/// The step of a log smoothing parameter from a saved smoothing parameter.
pub open spec fn drho_of<F: Arithmetic>(theta: Double, saved: Double) -> Double {
    ln::<F>(over::<F>(exp::<F>(theta).max_spec(lit(E_M300)), saved.max_spec(lit(E_M300))))
}

impl EnvelopeAcceptedState {
    /// One derivative of each coefficient for each of `m` parameters.
    pub open spec fn fits(&self, m: nat) -> bool {
        &&& self.lambda@.len() == m
        &&& self.b1@.len() == m
        &&& forall|k: int| 0 <= k < m ==> (#[trigger] self.b1@[k])@.len() == self.beta@.len()
    }

    /// The steps of the log smoothing parameters.
    pub open spec fn drhos<F: Arithmetic>(&self, theta: Seq<Double>) -> Seq<Double> {
        Seq::new(theta.len(), |k: int| drho_of::<F>(theta[k], self.lambda@[k]))
    }

    /// The coefficients carried along: `b + sum_k b1_k drho_k`.
    pub open spec fn carried<F: Arithmetic>(&self, theta: Seq<Double>) -> Seq<Double> {
        Seq::new(
            self.beta@.len(),
            |r: int|
                total_from::<F>(
                    self.beta@[r],
                    |k: int| times::<F>(self.b1@[k]@[r], self.drhos::<F>(theta)[k]),
                    theta.len(),
                ),
        )
    }

    fn sized(&self, m: usize) -> (b: bool)
        ensures
            b == self.fits(m as nat),
    {
        if self.lambda.len() != m || self.b1.len() != m {
            return false;
        }
        for k in 0..m
            invariant
                self.b1@.len() == m,
                forall|i: int| 0 <= i < k ==> (#[trigger] self.b1@[i])@.len() == self.beta@.len(),
        {
            if self.b1[k].len() != self.beta.len() {
                return false;
            }
        }
        true
    }

    /// The coefficients carried along to other parameters. `None` where the state
    /// has another size, a step is not finite or a coefficient is not.
    pub fn propagate<F: Arithmetic>(&self, theta: &Vec<Double>) -> (r: Option<Vec<Double>>)
        requires
            lawful::<F>(),
        ensures
            r is Some <==> self.fits(theta@.len()) && all_finite_seq(self.drhos::<F>(theta@))
                && all_finite_seq(self.carried::<F>(theta@)),
            r matches Some(v) ==> v@ == self.carried::<F>(theta@),
    {
        let m: usize = theta.len();
        if !self.sized(m) {
            return None;
        }
        let step = |k: usize| -> (v: Double)
            requires
                k < m,
            ensures
                v == drho_of::<F>(theta@[k as int], self.lambda@[k as int]),
            {
                ln::<F>(
                    over::<F>(
                        exp::<F>(theta[k]).max(lit(E_M300)),
                        self.lambda[k].max(lit(E_M300)),
                    ),
                )
            };
        let drhos: Vec<Double> = fill_vec(m, step);
        assert(drhos@ =~= self.drhos::<F>(theta@));
        if !all_finite(&drhos) {
            return None;
        }
        let entry = |r: usize| -> (v: Double)
            requires
                r < self.beta@.len(),
            ensures
                v == self.carried::<F>(theta@)[r as int],
            {
                let mut acc: Double = self.beta[r];
                for k in 0..m
                    invariant
                        lawful::<F>(),
                        m == theta@.len(),
                        self.fits(m as nat),
                        r < self.beta@.len(),
                        drhos@ == self.drhos::<F>(theta@),
                        drhos@.len() == m,
                        acc == total_from::<F>(
                            self.beta@[r as int],
                            |k: int| times::<F>(self.b1@[k]@[r as int], self.drhos::<F>(theta@)[k]),
                            k as nat,
                        ),
                {
                    assert(self.b1@[k as int]@.len() == self.beta@.len());
                    acc = plus::<F>(acc, times::<F>(self.b1[k][r], drhos[k]));
                }
                acc
            };
        let out: Vec<Double> = fill_vec(self.beta.len(), entry);
        assert(out@ =~= self.carried::<F>(theta@));
        if all_finite(&out) {
            Some(out)
        } else {
            None
        }
    }
}

/// A point shifted by `eps` along one axis.
pub open spec fn shifted<F: Arithmetic>(theta: Seq<Double>, i: int, eps: Double, up: bool) -> Seq<Double> {
    theta.update(
        i,
        if up {
            plus::<F>(theta[i], eps)
        } else {
            minus::<F>(theta[i], eps)
        },
    )
}

/// Shifts a point by `eps` along one axis.
pub fn shift<F: Arithmetic>(theta: &Vec<Double>, i: usize, eps: Double, up: bool) -> (r: Vec<Double>)
    requires
        lawful::<F>(),
        i < theta@.len(),
    ensures
        r@ == shifted::<F>(theta@, i as int, eps, up),
        r@.len() == theta@.len(),
{
    let x: Double = if up {
        plus::<F>(theta[i], eps)
    } else {
        minus::<F>(theta[i], eps)
    };
    let mut r: Vec<Double> = theta.clone();
    assert(r@ =~= theta@);
    r.set(i, x);
    r
}

/// A central difference: `(up - down) / (2 eps)`.
pub open spec fn central_of<F: Arithmetic>(up: Double, down: Double, eps: Double) -> Double {
    over::<F>(minus::<F>(up, down), times::<F>(two(), eps))
}

/// A central difference.
pub fn central<F: Arithmetic>(up: Double, down: Double, eps: Double) -> (r: Double)
    requires
        lawful::<F>(),
    ensures
        r == central_of::<F>(up, down, eps),
{
    over::<F>(minus::<F>(up, down), times::<F>(two(), eps))
}

/// Central differences of the gradient, column by column, symmetrised. Column `i`
/// comes from a shift of `eps(i)`.
pub open spec fn differences_of<F: Arithmetic>(
    d: nat,
    up: Seq<Vec<Double>>,
    down: Seq<Vec<Double>>,
    eps: spec_fn(int) -> Double,
) -> Seq<Seq<Double>> {
    symmetrised_of::<F>(
        grid(d, d, |j: int, i: int| central_of::<F>(up[i]@[j], down[i]@[j], eps(i))),
    )
}

/// Central differences of gradients `d` long, symmetrised.
pub fn differences<F: Arithmetic>(
    d: usize,
    up: &Vec<Vec<Double>>,
    down: &Vec<Vec<Double>>,
    eps: &Vec<Double>,
    Ghost(of): Ghost<spec_fn(int) -> Double>,
) -> (r: Matrix)
    requires
        lawful::<F>(),
        up@.len() == d,
        down@.len() == d,
        eps@.len() == d,
        forall|i: int| 0 <= i < d ==> (#[trigger] up@[i])@.len() == d,
        forall|i: int| 0 <= i < d ==> (#[trigger] down@[i])@.len() == d,
        forall|i: int| 0 <= i < d ==> #[trigger] eps@[i] == of(i),
    ensures
        r.square(d as nat),
        r@ == differences_of::<F>(d as nat, up@, down@, of),
{
    let entry = |j: usize, i: usize| -> (v: Double)
        requires
            i < d,
            j < d,
        ensures
            v == central_of::<F>(up@[i as int]@[j as int], down@[i as int]@[j as int], of(i as int)),
        {
            assert(up@[i as int]@.len() == d);
            assert(down@[i as int]@.len() == d);
            assert(eps@[i as int] == of(i as int));
            central::<F>(up[i][j], down[i][j], eps[i])
        };
    let h: Matrix = Matrix::fill(d, d, entry);
    proof {
        h.lemma_is_grid(
            d as nat,
            d as nat,
            |j: int, i: int| central_of::<F>(up@[i]@[j], down@[i]@[j], of(i)),
        );
    }
    symmetrised::<F>(&h)
}

/// What of a fit the Hessian's weight term is made from, unless it is left out.
pub open spec fn chain_for<'a, S: LinearSolver>(skip: bool, fit: &'a GaussianInnerFit<S>) -> Option<
    (&'a Vec<Double>, &'a Matrix),
> {
    match (fit.dw_deta, fit.x_design) {
        (Some(dw), Some(x)) => if skip {
            None
        } else {
            Some((&dw, &x))
        },
        _ => None,
    }
}

/// The weight term's inputs have the sizes of the fit.
pub open spec fn chain_fits<'a>(c: Option<(&'a Vec<Double>, &'a Matrix)>, p: nat) -> bool {
    c matches Some(v) ==> v.1.shape(v.0@.len(), p)
}

impl<L: Loss, I, P, D: DenseBackend, S: LinearSolver> EnvelopeScore<L, I, P, D, S> {
    /// The inputs of the Hessian have the sizes of the terms and of the fit.
    pub open spec fn hin_fits(&self, fit: GaussianInnerFit<S>, h: HessInputs) -> bool {
        let m = self.s_list@.len();
        &&& fit.beta@.len() == fit.p
        &&& penalties_fit(self.s_list@, fit.p as nat)
        &&& h.lambda_j@.len() == m
        &&& h.bsb_per_term@.len() == m
        &&& h.tr_hinv_s_per_term@.len() == m
        &&& h.a_inv.square(h.a_inv@.len())
        &&& (h.dsigma2_drho matches Some(d) ==> d@.len() == m && h.a_inv.square(fit.p as nat))
    }

    proof fn lemma_scored_fits<F: Arithmetic>(
        &self,
        theta: Seq<Double>,
        fit: GaussianInnerFit<S>,
        v: Double,
        g: Seq<Double>,
        h: HessInputs,
    ) where I: InnerSolver<F, D, S>, P: Profile<F, L>
        requires
            theta.len() == self.s_list@.len(),
            self.scored::<F>(theta, fit, v, g, h),
        ensures
            self.hin_fits(fit, h),
            g.len() == theta.len(),
    {
    }

    /// The Hessian in closed form, for some answer of the loss. There is none
    /// where the gradient carries the weight-chain term, where the dispersion has
    /// no derivative in closed form, or where the fit's weights and design do not
    /// match.
    pub open spec fn analytic<F: Arithmetic>(
        &self,
        fit: GaussianInnerFit<S>,
        h: HessInputs,
        r: Option<Matrix>,
    ) -> bool {
        if h.has_tk_kkt || h.dsigma2_drho is None {
            r is None
        } else {
            exists|skip: bool| #[trigger]
                call_ensures(L::skip_w_chain_in_hessian, (&self.loss,), skip) && if chain_fits(
                    chain_for(skip, &fit),
                    fit.p as nat,
                ) {
                    r matches Some(m) && m.square(self.s_list@.len()) && m@ == (AnalyticHessian {
                        s_list: &self.s_list,
                        beta: &fit.beta,
                        hin: &h,
                        dsigma2: &h.dsigma2_drho->0,
                        chain: chain_for(skip, &fit),
                    }).hessian::<F>()
                } else {
                    r is None
                }
        }
    }

    /// The Hessian in closed form, where there is one.
    pub fn hess_analytic<F: Arithmetic>(&self, inner: &GaussianInnerFit<S>, hin: &HessInputs) -> (r: Option<Matrix>)
        requires
            lawful::<F>(),
            self.hin_fits(*inner, *hin),
        ensures
            self.analytic::<F>(*inner, *hin, r),
    {
        if hin.has_tk_kkt {
            return None;
        }
        let dsigma2: &Vec<Double> = match &hin.dsigma2_drho {
            Some(d) => d,
            None => return None,
        };
        let skip: bool = self.loss.skip_w_chain_in_hessian();
        let chain: Option<(&Vec<Double>, &Matrix)> = match (&inner.dw_deta, &inner.x_design) {
            (Some(dw), Some(x)) => if skip {
                None
            } else {
                Some((dw, x))
            },
            _ => None,
        };
        assert(chain == chain_for(skip, inner));
        if let Some(c) = chain {
            if !is_shape(c.1, c.0.len(), inner.p) {
                return None;
            }
        }
        let a: AnalyticHessian = AnalyticHessian {
            s_list: &self.s_list,
            beta: &inner.beta,
            hin,
            dsigma2,
            chain,
        };
        Some(a.compute::<F>())
    }

    /// The coefficients to start a trial fit from, for some answer of the loss.
    pub open spec fn propagated<F: Arithmetic>(
        &self,
        accepted: Option<EnvelopeAcceptedState>,
        theta: Seq<Double>,
        warm: Option<Vec<Double>>,
    ) -> bool {
        exists|allowed: bool| #[trigger]
            call_ensures(L::allows_no_refresh, (&self.loss,), allowed) && match accepted {
                Some(st) => if allowed && st.fits(theta.len()) && all_finite_seq(st.drhos::<F>(theta))
                    && all_finite_seq(st.carried::<F>(theta)) {
                    warm matches Some(w) && w@ == st.carried::<F>(theta)
                } else {
                    warm is None
                },
                None => warm is None,
            }
    }

    /// The coefficients to start a trial fit from. There are none where the family
    /// does not allow it, no accepted state is kept, or they are not finite.
    pub fn ift_propagated_beta<F: Arithmetic>(
        &self,
        accepted: &Option<EnvelopeAcceptedState>,
        theta: &Vec<Double>,
    ) -> (warm: Option<Vec<Double>>)
        requires
            lawful::<F>(),
        ensures
            self.propagated::<F>(*accepted, theta@, warm),
    {
        let allowed: bool = self.loss.allows_no_refresh();
        if !allowed {
            return None;
        }
        match accepted {
            Some(st) => st.propagate::<F>(theta),
            None => None,
        }
    }

    /// Score and gradient at a point come from a fresh fit there.
    pub open spec fn fresh<F: Arithmetic>(&self, theta: Seq<Double>, v: Double, g: Seq<Double>) -> bool where
        I: InnerSolver<F, D, S>,
        P: Profile<F, L>,
     {
        exists|fit: GaussianInnerFit<S>, h: HessInputs|
            self.inner.fits(theta, None, Ok(fit)) && #[trigger] self.scored::<F>(theta, fit, v, g, h)
    }

    /// A fresh fit at a point failed, or its parts have the wrong sizes.
    pub open spec fn fresh_fails<F: Arithmetic>(&self, theta: Seq<Double>, e: GamrsError) -> bool where
        I: InnerSolver<F, D, S>,
        P: Profile<F, L>,
     {
        ||| self.inner.fits(theta, None, Err(e))
        ||| exists|fit: GaussianInnerFit<S>|
            self.inner.fits(theta, None, Ok(fit)) && misfit(e) && #[trigger] self.unscored::<F>(theta, fit)
    }

    /// The score is ready to be evaluated.
    pub open spec fn in_order<F: Arithmetic>(&self) -> bool where I: InnerSolver<F, D, S> {
        &&& lawful::<F>()
        &&& self.lists_fit()
        &&& self.inner.ready()
        &&& self.inner.terms() == self.s_list@.len()
    }

    /// Score and gradient at a point, from a fresh fit.
    pub fn compute_value_grad<F: Arithmetic>(&self, theta: &Vec<Double>) -> (r: Result<
        (Double, Vec<Double>),
        GamrsError,
    >) where I: InnerSolver<F, D, S>, P: Profile<F, L>
        requires
            self.in_order::<F>(),
            theta@.len() == self.s_list@.len(),
        ensures
            match r {
                Ok(out) => self.fresh::<F>(theta@, out.0, out.1@) && out.1@.len() == theta@.len(),
                Err(e) => self.fresh_fails::<F>(theta@, e),
            },
    {
        let fit: GaussianInnerFit<S> = match self.inner.fit(theta) {
            Ok(f) => f,
            Err(e) => return Err(e),
        };
        match self.compute_value_grad_from_fit::<F>(theta, &fit) {
            Ok(out) => {
                assert(self.scored::<F>(theta@, fit, out.0, out.1@, out.2));
                Ok((out.0, out.1))
            },
            Err(e) => Err(e),
        }
    }

    /// The Hessian by central differences of the gradient.
    pub open spec fn by_differences<F: Arithmetic>(&self, theta: Seq<Double>, r: Seq<Seq<Double>>) -> bool where
        I: InnerSolver<F, D, S>,
        P: Profile<F, L>,
     {
        exists|up: Seq<Vec<Double>>, down: Seq<Vec<Double>>|
            #![trigger self.shifted_gradients::<F>(theta, up, true, theta.len()), self.shifted_gradients::<F>(theta, down, false, theta.len())]
            self.shifted_gradients::<F>(theta, up, true, theta.len()) && self.shifted_gradients::<F>(
                theta,
                down,
                false,
                theta.len(),
            ) && r == differences_of::<F>(theta.len(), up, down, |i: int| lit(E_M5))
    }

    /// Gradients at the points shifted along the first `n` axes.
    pub open spec fn shifted_gradients<F: Arithmetic>(
        &self,
        theta: Seq<Double>,
        g: Seq<Vec<Double>>,
        up: bool,
        n: nat,
    ) -> bool where I: InnerSolver<F, D, S>, P: Profile<F, L> {
        &&& g.len() == n
        &&& forall|i: int|
            0 <= i < n ==> (#[trigger] g[i])@.len() == theta.len() && self.gradient_there::<F>(
                shifted::<F>(theta, i, lit(E_M5), up),
                g[i]@,
            )
    }

    /// A fresh fit at a point has this gradient.
    pub open spec fn gradient_there<F: Arithmetic>(&self, theta: Seq<Double>, g: Seq<Double>) -> bool where
        I: InnerSolver<F, D, S>,
        P: Profile<F, L>,
     {
        exists|v: Double| #[trigger] self.fresh::<F>(theta, v, g)
    }

    /// A fresh fit at a shifted point failed.
    pub open spec fn differences_fail<F: Arithmetic>(&self, theta: Seq<Double>, e: GamrsError) -> bool where
        I: InnerSolver<F, D, S>,
        P: Profile<F, L>,
     {
        exists|i: int, up: bool|
            0 <= i < theta.len() && self.fresh_fails::<F>(#[trigger] shifted::<F>(theta, i, lit(E_M5), up), e)
    }

    /// The Hessian by central differences of the gradient, two fresh fits for
    /// each axis.
    pub fn hess_via_fd<F: Arithmetic>(&self, theta: &Vec<Double>) -> (r: Result<Matrix, GamrsError>) where
        I: InnerSolver<F, D, S>,
        P: Profile<F, L>,

        requires
            self.in_order::<F>(),
            theta@.len() == self.s_list@.len(),
        ensures
            match r {
                Ok(m) => m.square(theta@.len()) && self.by_differences::<F>(theta@, m@),
                Err(e) => self.differences_fail::<F>(theta@, e),
            },
    {
        let d: usize = theta.len();
        let mut up: Vec<Vec<Double>> = Vec::new();
        let mut down: Vec<Vec<Double>> = Vec::new();
        for i in 0..d
            invariant
                self.in_order::<F>(),
                d == theta@.len(),
                theta@.len() == self.s_list@.len(),
                self.shifted_gradients::<F>(theta@, up@, true, i as nat),
                self.shifted_gradients::<F>(theta@, down@, false, i as nat),
        {
            let tp: Vec<Double> = shift::<F>(theta, i, lit(E_M5), true);
            let gp: Vec<Double> = match self.compute_value_grad::<F>(&tp) {
                Ok(out) => {
                    assert(self.fresh::<F>(tp@, out.0, out.1@));
                    out.1
                },
                Err(e) => {
                    assert(self.fresh_fails::<F>(shifted::<F>(theta@, i as int, lit(E_M5), true), e));
                    return Err(e);
                },
            };
            let tm: Vec<Double> = shift::<F>(theta, i, lit(E_M5), false);
            let gm: Vec<Double> = match self.compute_value_grad::<F>(&tm) {
                Ok(out) => {
                    assert(self.fresh::<F>(tm@, out.0, out.1@));
                    out.1
                },
                Err(e) => {
                    assert(self.fresh_fails::<F>(shifted::<F>(theta@, i as int, lit(E_M5), false), e));
                    return Err(e);
                },
            };
            assert(self.gradient_there::<F>(shifted::<F>(theta@, i as int, lit(E_M5), true), gp@));
            assert(self.gradient_there::<F>(shifted::<F>(theta@, i as int, lit(E_M5), false), gm@));
            up.push(gp);
            down.push(gm);
        }
        let step = |i: usize| -> (v: Double)
            ensures
                v == lit(E_M5),
            { lit(E_M5) };
        let eps: Vec<Double> = fill_vec(d, step);
        Ok(differences::<F>(d, &up, &down, &eps, Ghost(|i: int| lit(E_M5))))
    }

    /// The Hessian: in closed form where there is one, else by differences.
    pub open spec fn hessian_of<F: Arithmetic>(
        &self,
        theta: Seq<Double>,
        fit: GaussianInnerFit<S>,
        h: HessInputs,
        r: Seq<Seq<Double>>,
    ) -> bool where I: InnerSolver<F, D, S>, P: Profile<F, L> {
        ||| exists|m: Matrix| #[trigger] self.analytic::<F>(fit, h, Some(m)) && r == m@
        ||| self.analytic::<F>(fit, h, None) && self.by_differences::<F>(theta, r)
    }

    /// The state kept of an accepted point.
    pub open spec fn kept<F: Arithmetic>(
        &self,
        fit: GaussianInnerFit<S>,
        h: HessInputs,
        before: Option<EnvelopeAcceptedState>,
        after: Option<EnvelopeAcceptedState>,
    ) -> bool {
        exists|allowed: bool| #[trigger]
            call_ensures(L::allows_no_refresh, (&self.loss,), allowed) && if allowed && h.a_inv@.len()
                == fit.p {
                after matches Some(st) && st.beta@ == fit.beta@ && st.lambda@ == h.lambda_j@ && st.fits(
                    self.s_list@.len(),
                ) && forall|k: int|
                    0 <= k < self.s_list@.len() ==> (#[trigger] st.b1@[k])@ == b1_of::<F>(
                        self.s_list@,
                        h.lambda_j@,
                        h.a_inv@,
                        fit.beta@,
                        k,
                    )
            } else {
                after == before
            }
    }

    fn keep<F: Arithmetic>(
        &self,
        fit: &GaussianInnerFit<S>,
        h: &HessInputs,
        before: Option<EnvelopeAcceptedState>,
    ) -> (after: Option<EnvelopeAcceptedState>)
        requires
            lawful::<F>(),
            self.hin_fits(*fit, *h),
        ensures
            self.kept::<F>(*fit, *h, before, after),
    {
        let allowed: bool = self.loss.allows_no_refresh();
        if !(allowed && h.a_inv.rows.len() == fit.p) {
            return before;
        }
        let m: usize = self.s_list.len();
        let mut b1: Vec<Vec<Double>> = Vec::new();
        for k in 0..m
            invariant
                lawful::<F>(),
                self.hin_fits(*fit, *h),
                m == self.s_list@.len(),
                h.a_inv@.len() == fit.p,
                b1@.len() == k,
                forall|i: int|
                    0 <= i < k ==> (#[trigger] b1@[i])@ == b1_of::<F>(
                        self.s_list@,
                        h.lambda_j@,
                        h.a_inv@,
                        fit.beta@,
                        i,
                    ) && b1@[i]@.len() == fit.beta@.len(),
        {
            b1.push(b1_column::<F>(&self.s_list, &h.lambda_j, &h.a_inv, &fit.beta, k));
        }
        let beta: Vec<Double> = fit.beta.clone();
        assert(beta@ =~= fit.beta@);
        let lambda: Vec<Double> = h.lambda_j.clone();
        assert(lambda@ =~= h.lambda_j@);
        Some(EnvelopeAcceptedState { beta, b1, lambda })
    }

    /// An evaluation of the score with a start and a fit.
    pub open spec fn value_course<F: Arithmetic>(
        &self,
        memory: ScoreMemory<EnvelopeAcceptedState>,
        theta: Seq<Double>,
        warm: Option<Vec<Double>>,
        fr: Result<GaussianInnerFit<S>, GamrsError>,
        r: Result<Double, GamrsError>,
        after: ScoreMemory<EnvelopeAcceptedState>,
    ) -> bool where I: InnerSolver<F, D, S>, P: Profile<F, L> {
        &&& after.accepted == memory.accepted
        &&& after.observed == memory.observed
        &&& self.propagated::<F>(memory.accepted, theta, warm)
        &&& self.inner.fits(theta, borrowed(warm), fr)
        &&& match fr {
            Ok(fit) => {
                &&& tallied(
                    memory.stats,
                    after.stats,
                    warm is Some,
                    warm is Some,
                    Some(fit.iterations),
                )
                &&& match r {
                    Ok(v) => self.scores::<F>(theta, fit, v),
                    Err(e) => misfit(e) && self.unscored::<F>(theta, fit),
                }
            },
            Err(e) => {
                &&& tallied(memory.stats, after.stats, warm is Some, false, None)
                &&& r == Err::<Double, GamrsError>(e)
            },
        }
    }

    /// The score at a fit, for some reading of it.
    pub open spec fn scores<F: Arithmetic>(&self, theta: Seq<Double>, fit: GaussianInnerFit<S>, v: Double) -> bool where
        I: InnerSolver<F, D, S>,
        P: Profile<F, L>,
     {
        exists|g: Seq<Double>, h: HessInputs| #[trigger] self.scored::<F>(theta, fit, v, g, h)
    }

    /// Score, gradient and Hessian at a fit, and the state kept of it.
    pub open spec fn derived<F: Arithmetic>(
        &self,
        theta: Seq<Double>,
        fit: GaussianInnerFit<S>,
        ev: Evaluation,
        before: Option<EnvelopeAcceptedState>,
        after: Option<EnvelopeAcceptedState>,
    ) -> bool where I: InnerSolver<F, D, S>, P: Profile<F, L> {
        ev.fits(theta.len()) && exists|h: HessInputs| #[trigger]
            self.scored::<F>(theta, fit, ev.value, ev.grad@, h) && self.hessian_of::<F>(
                theta,
                fit,
                h,
                ev.hess@,
            ) && self.kept::<F>(fit, h, before, after)
    }

    /// There is no Hessian in closed form, and none by differences.
    pub open spec fn underived<F: Arithmetic>(&self, theta: Seq<Double>, fit: GaussianInnerFit<S>, e: GamrsError) -> bool where
        I: InnerSolver<F, D, S>,
        P: Profile<F, L>,
     {
        self.differences_fail::<F>(theta, e) && exists|h: HessInputs| #[trigger]
            self.analytic::<F>(fit, h, None)
    }

    /// An evaluation of score and derivatives with a start and a fit.
    pub open spec fn eval_course<F: Arithmetic>(
        &self,
        memory: ScoreMemory<EnvelopeAcceptedState>,
        theta: Seq<Double>,
        warm: Option<Vec<Double>>,
        fr: Result<GaussianInnerFit<S>, GamrsError>,
        r: Result<Evaluation, GamrsError>,
        after: ScoreMemory<EnvelopeAcceptedState>,
    ) -> bool where I: InnerSolver<F, D, S>, P: Profile<F, L> {
        &&& after.observed == memory.observed
        &&& self.propagated::<F>(memory.accepted, theta, warm)
        &&& self.inner.fits(theta, borrowed(warm), fr)
        &&& match fr {
            Ok(fit) => {
                &&& tallied(memory.stats, after.stats, false, false, Some(fit.iterations))
                &&& match r {
                    Ok(ev) => self.derived::<F>(theta, fit, ev, memory.accepted, after.accepted),
                    Err(e) => {
                        &&& after.accepted == memory.accepted
                        &&& (misfit(e) && self.unscored::<F>(theta, fit)) || self.underived::<F>(
                            theta,
                            fit,
                            e,
                        )
                    },
                }
            },
            Err(e) => {
                &&& tallied(memory.stats, after.stats, false, false, None)
                &&& after.accepted == memory.accepted
                &&& r == Err::<Evaluation, GamrsError>(e)
            },
        }
    }

    /// Probing a trial point leaves the state of the accepted point alone, and the
    /// propagated starts that were used never outnumber those that were tried.
    pub proof fn law_probe_keeps_the_accepted_point<F: Arithmetic>(
        &self,
        memory: ScoreMemory<EnvelopeAcceptedState>,
        theta: Seq<Double>,
        r: Result<Double, GamrsError>,
        after: ScoreMemory<EnvelopeAcceptedState>,
    ) where I: InnerSolver<F, D, S>, P: Profile<F, L>
        requires
            ScoreDerivatives::<F>::values(self, memory, theta, r, after),
            memory.stats matches Some(b) ==> b@.no_refresh_hits <= b@.no_refresh_attempts
                && b@.no_refresh_attempts < usize::MAX,
        ensures
            after.accepted == memory.accepted,
            after.stats matches Some(a) ==> a@.no_refresh_hits <= a@.no_refresh_attempts,
    {
    }

    /// The bounds of the log smoothing parameters, -30 to 30.
    pub fn axis_bounds(&self) -> (b: Bounds)
        ensures
            b@ == Seq::new(self.s_list@.len(), |j: int| (lit(THIRTY).neg_spec(), lit(THIRTY))),
    {
        let mut b: Bounds = Vec::new();
        for j in 0..self.s_list.len()
            invariant
                b@.len() == j,
                forall|k: int| 0 <= k < j ==> #[trigger] b@[k] == (lit(THIRTY).neg_spec(), lit(THIRTY)),
        {
            b.push((lit(THIRTY).neg(), lit(THIRTY)));
        }
        assert(b@ =~= Seq::new(
            self.s_list@.len(),
            |j: int| (lit(THIRTY).neg_spec(), lit(THIRTY)),
        ));
        b
    }
}

impl<F: Arithmetic, L: Loss, I: InnerSolver<F, D, S>, P: Profile<F, L>, D: DenseBackend, S: LinearSolver> ScoreDerivatives<
    F,
> for EnvelopeScore<L, I, P, D, S> {
    type Accepted = EnvelopeAcceptedState;

    open spec fn ready(&self) -> bool {
        self.in_order::<F>()
    }

    open spec fn takes(&self, n: nat) -> bool {
        n == self.s_list@.len()
    }

    /// The score of a fit started at propagated coefficients where there are any.
    open spec fn values(
        &self,
        memory: ScoreMemory<EnvelopeAcceptedState>,
        theta: Seq<Double>,
        r: Result<Double, GamrsError>,
        after: ScoreMemory<EnvelopeAcceptedState>,
    ) -> bool {
        exists|warm: Option<Vec<Double>>, fr: Result<GaussianInnerFit<S>, GamrsError>| #[trigger]
            self.value_course::<F>(memory, theta, warm, fr, r, after)
    }

    /// The score of such a fit with its gradient and Hessian; the state of the
    /// point is kept.
    open spec fn evaluates(
        &self,
        memory: ScoreMemory<EnvelopeAcceptedState>,
        theta: Seq<Double>,
        r: Result<Evaluation, GamrsError>,
        after: ScoreMemory<EnvelopeAcceptedState>,
    ) -> bool {
        exists|warm: Option<Vec<Double>>, fr: Result<GaussianInnerFit<S>, GamrsError>| #[trigger]
            self.eval_course::<F>(memory, theta, warm, fr, r, after)
    }

    /// No caps; the log smoothing parameters stay between -30 and 30.
    open spec fn limited(&self, caps: Option<Vec<Double>>, bnds: Option<Bounds>) -> bool {
        &&& caps is None
        &&& bnds matches Some(b) && b@ == Seq::new(
            self.s_list@.len(),
            |j: int| (lit(THIRTY).neg_spec(), lit(THIRTY)),
        )
    }

    fn value(&self, memory: ScoreMemory<EnvelopeAcceptedState>, theta: &Vec<Double>) -> (r: (Result<
        Double,
        GamrsError,
    >, ScoreMemory<EnvelopeAcceptedState>)) {
        let ghost given = memory;
        let warm: Option<Vec<Double>> = self.ift_propagated_beta::<F>(&memory.accepted, theta);
        let warmed: bool = warm.is_some();
        let fr: Result<GaussianInnerFit<S>, GamrsError> = self.inner.fit_warm(theta, warm.as_ref());
        assert(self.inner.fits(theta@, borrowed(warm), fr));
        let ghost answered = fr;
        let (r, stats) = match fr {
            Ok(fit) => {
                let stats: Option<FitStats> = tally(
                    memory.stats,
                    warmed,
                    warmed,
                    Some(fit.iterations),
                );
                match self.compute_value_grad_from_fit::<F>(theta, &fit) {
                    Ok(out) => {
                        assert(self.scored::<F>(theta@, fit, out.0, out.1@, out.2));
                        (Ok(out.0), stats)
                    },
                    Err(e) => (Err(e), stats),
                }
            },
            Err(e) => (Err(e), tally(memory.stats, warmed, false, None)),
        };
        let after: ScoreMemory<EnvelopeAcceptedState> = ScoreMemory {
            accepted: memory.accepted,
            stats,
            observed: memory.observed,
        };
        assert(self.value_course::<F>(given, theta@, warm, answered, r, after));
        (r, after)
    }

    fn value_grad_hess(&self, memory: ScoreMemory<EnvelopeAcceptedState>, theta: &Vec<Double>) -> (r: (Result<
        Evaluation,
        GamrsError,
    >, ScoreMemory<EnvelopeAcceptedState>)) {
        let ghost given = memory;
        let warm: Option<Vec<Double>> = self.ift_propagated_beta::<F>(&memory.accepted, theta);
        let fr: Result<GaussianInnerFit<S>, GamrsError> = self.inner.fit_warm(theta, warm.as_ref());
        assert(self.inner.fits(theta@, borrowed(warm), fr));
        let ghost answered = fr;
        let fit: GaussianInnerFit<S> = match fr {
            Ok(fit) => fit,
            Err(e) => {
                let stats: Option<FitStats> = tally(memory.stats, false, false, None);
                let after: ScoreMemory<EnvelopeAcceptedState> = ScoreMemory {
                    accepted: memory.accepted,
                    stats,
                    observed: memory.observed,
                };
                assert(self.eval_course::<F>(given, theta@, warm, answered, Err(e), after));
                return (Err(e), after);
            },
        };
        let stats: Option<FitStats> = tally(memory.stats, false, false, Some(fit.iterations));
        let (v, g, h) = match self.compute_value_grad_from_fit::<F>(theta, &fit) {
            Ok(out) => out,
            Err(e) => {
                let after: ScoreMemory<EnvelopeAcceptedState> = ScoreMemory {
                    accepted: memory.accepted,
                    stats,
                    observed: memory.observed,
                };
                assert(self.eval_course::<F>(given, theta@, warm, answered, Err(e), after));
                return (Err(e), after);
            },
        };
        proof {
            self.lemma_scored_fits::<F>(theta@, fit, v, g@, h);
        }
        let closed: Option<Matrix> = self.hess_analytic::<F>(&fit, &h);
        let hess: Matrix = match closed {
            Some(m) => {
                assert(self.analytic::<F>(fit, h, Some(m)));
                m
            },
            None => match self.hess_via_fd::<F>(theta) {
                Ok(m) => m,
                Err(e) => {
                    let after: ScoreMemory<EnvelopeAcceptedState> = ScoreMemory {
                        accepted: memory.accepted,
                        stats,
                        observed: memory.observed,
                    };
                    assert(self.underived::<F>(theta@, fit, e));
                    assert(self.eval_course::<F>(given, theta@, warm, answered, Err(e), after));
                    return (Err(e), after);
                },
            },
        };
        assert(hess.square(theta@.len()));
        assert(self.hessian_of::<F>(theta@, fit, h, hess@));
        let accepted: Option<EnvelopeAcceptedState> = self.keep::<F>(&fit, &h, memory.accepted);
        let ev: Evaluation = Evaluation { value: v, grad: g, hess };
        let after: ScoreMemory<EnvelopeAcceptedState> = ScoreMemory { accepted, stats, observed: memory.observed };
        assert(self.scored::<F>(theta@, fit, ev.value, ev.grad@, h));
        assert(self.derived::<F>(theta@, fit, ev, given.accepted, after.accepted));
        assert(self.eval_course::<F>(given, theta@, warm, answered, Ok(ev), after));
        (Ok(ev), after)
    }

    fn axis_limits(&self) -> (r: (Option<Vec<Double>>, Option<Bounds>)) {
        (None, Some(self.axis_bounds()))
    }
}

} // verus!
