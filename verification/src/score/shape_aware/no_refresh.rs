//! A trial score without a full inner fit: the coefficients are carried along
//! from the last accepted point and corrected by one least-squares step.

use vstd::prelude::*;

use crate::arith::{count, lawful, minus, over, plus, times, total, Arithmetic};
use crate::dense::{
    dot, mat_plus, mat_plus_of, mat_t_vec, mat_t_vec_of, mat_vec, mat_vec_of, relative_ridge,
    relative_ridge_of,
};
use crate::double::{lit, zero, Double, E_M12, E_M8};
use crate::inner::linalg::{factored, solved, LinearSolver};
use crate::inner::pirls::curvature::{all_finite_seq, newton_score_weights, newton_weights_of};
use crate::inner::pirls::{
    compute_deviance, deviance_of, eta_mu_valid, means, means_of, row_invalid, row_valid,
    standard_pair, standard_rows,
};
use crate::inner::{all_finite, combined_s, combined_s_of};
use crate::matrix::{fill_vec, Matrix};
use crate::score::envelope::{reml, reml_of, sat_read, sat_sum, tallied, tally};
use crate::score::hess_ift::{build_xtwx, build_xtwx_of};
use crate::score::profile::n_minus_mp_of;
use crate::score::shape_aware::evaluate::AcceptedState;
use crate::score::shape_aware::score::{
    adjusted_log_det, adjusted_log_det_of, head, lambdas, tail, ShapeAwareEnvelopeScore,
};
use crate::stats::FitStats;
use crate::traits::{DenseBackend, Family, Link, ShapeLoss, VarianceFn};

verus! {

/// The least-squares step: the means it starts from, its working pair, its factor,
/// its solution and what follows from it.
pub struct LsReading<S: LinearSolver> {
    /// Means at the carried coefficients.
    pub mu_warm: Seq<Double>,
    /// Working weights.
    pub w: Seq<Double>,
    /// Working response.
    pub z: Seq<Double>,
    /// Factor.
    pub factor: S::Factorization,
    /// Coefficients.
    pub beta: Seq<Double>,
    /// Means.
    pub mu: Seq<Double>,
    /// Deviance.
    pub dev: Double,
}

/// What is left of a least-squares step.
struct LsStep<S: LinearSolver> {
    factor: S::Factorization,
    beta: Vec<Double>,
    mu: Vec<Double>,
    dev: Double,
    newton: bool,
}

/// `w z`, entry by entry.
pub open spec fn products_of<F: Arithmetic>(w: Seq<Double>, z: Seq<Double>) -> Seq<Double> {
    Seq::new(w.len(), |i: int| times::<F>(w[i], z[i]))
}

/// Numbers that are equal, entry by entry; NaN equals nothing.
pub open spec fn same_numbers(a: Seq<Double>, b: Seq<Double>) -> bool {
    a.len() == b.len() && forall|i: int|
        0 <= i < a.len() ==> (#[trigger] a[i]).at_most(b[i]) && b[i].at_most(a[i])
}

/// Whether numbers are equal, entry by entry.
pub fn equal_numbers(a: &Vec<Double>, b: &Vec<Double>) -> (r: bool)
    ensures
        r == same_numbers(a@, b@),
{
    if a.len() != b.len() {
        return false;
    }
    for i in 0..a.len()
        invariant
            a@.len() == b@.len(),
            forall|k: int| 0 <= k < i ==> (#[trigger] a@[k]).at_most(b@[k]) && b@[k].at_most(a@[k]),
    {
        if !a[i].num_eq(b[i]) {
            assert(!(a@[i as int].at_most(b@[i as int]) && b@[i as int].at_most(a@[i as int])));
            return false;
        }
    }
    true
}

impl<L: ShapeLoss<K, V>, K: Link, V: VarianceFn, B, P, D: DenseBackend, S: LinearSolver> ShapeAwareEnvelopeScore<
    L,
    K,
    V,
    B,
    P,
    D,
    S,
> {
    /// The coefficients carried along from a kept state: there are none where no
    /// state is kept, its shape parameters are not those of the point, or they
    /// are not finite.
    pub open spec fn carried_start<F: Arithmetic>(&self, state: Option<AcceptedState>, theta: Seq<Double>) -> Option<
        Seq<Double>,
    > {
        match state {
            Some(st) => {
                let rho = self.rho_of(theta);
                if st.point.fits(self.terms()) && st.point.beta@.len() == self.data.x_design.cols
                    && same_numbers(theta.skip(self.terms() as int), st.shape_params@) && all_finite_seq(
                    st.point.drhos::<F>(rho),
                ) && all_finite_seq(st.point.carried::<F>(rho)) {
                    Some(st.point.carried::<F>(rho))
                } else {
                    None
                }
            },
            None => None,
        }
    }

    fn carry<F: Arithmetic>(&self, state: &Option<AcceptedState>, theta: &Vec<Double>) -> (r: Option<Vec<Double>>)
        requires
            lawful::<F>(),
            self.wf(),
            theta@.len() == self.axes(),
        ensures
            match r {
                Some(v) => self.carried_start::<F>(*state, theta@) == Some(v@) && v@.len()
                    == self.data.x_design.cols,
                None => self.carried_start::<F>(*state, theta@) is None,
            },
    {
        let m: usize = self.data.s_list.len();
        let rho: Vec<Double> = head(theta, m);
        let shape: Vec<Double> = tail(theta, m);
        match state {
            Some(st) => {
                if st.point.beta.len() != self.data.x_design.cols || !equal_numbers(
                    &shape,
                    &st.shape_params,
                ) {
                    return None;
                }
                st.point.propagate::<F>(&rho)
            },
            None => None,
        }
    }

    /// The penalised cross-product at weights, without a ridge.
    pub open spec fn trial_system<F: Arithmetic>(&self, rho: Seq<Double>, w: Seq<Double>) -> Seq<Seq<Double>> {
        let p = self.data.x_design.cols as nat;
        mat_plus_of::<F>(
            build_xtwx_of::<F>(self.data.x_design@, p, w),
            combined_s_of::<F>(self.data.s_list@, rho, p),
        )
    }

    /// The working pair at the carried coefficients.
    pub open spec fn at_pair<F: Arithmetic>(
        &self,
        family: Family<L, K, V>,
        newton: bool,
        start: Seq<Double>,
        q: LsReading<S>,
    ) -> bool {
        let eta = mat_vec_of::<F>(self.data.x_design@, start);
        &&& all_finite_seq(eta)
        &&& means_of::<K>(family.link, eta, q.mu_warm)
        &&& all_finite_seq(q.mu_warm)
        &&& standard_pair::<F, K, V>(
            family.link,
            family.variance,
            newton,
            self.data.y@,
            q.mu_warm,
            eta,
            self.prior(),
            q.w,
            q.z,
        )
    }

    /// The solution of the least-squares step.
    pub open spec fn at_solution<F: Arithmetic>(
        &self,
        family: Family<L, K, V>,
        newton: bool,
        rho: Seq<Double>,
        start: Seq<Double>,
        q: LsReading<S>,
    ) -> bool {
        let p = self.data.x_design.cols as nat;
        &&& self.at_pair::<F>(family, newton, start, q)
        &&& factored::<S>(
            relative_ridge_of::<F>(self.trial_system::<F>(rho, q.w), lit(E_M12)),
            Ok(q.factor),
        )
        &&& solved::<S>(
            q.factor,
            mat_t_vec_of::<F>(self.data.x_design@, p, products_of::<F>(q.w, q.z)),
            q.beta,
        )
    }

    /// The end of the least-squares step: coefficients, means and deviance, all
    /// finite.
    pub open spec fn at_end<F: Arithmetic>(
        &self,
        family: Family<L, K, V>,
        newton: bool,
        rho: Seq<Double>,
        start: Seq<Double>,
        q: LsReading<S>,
    ) -> bool {
        let eta = mat_vec_of::<F>(self.data.x_design@, q.beta);
        &&& self.at_solution::<F>(family, newton, rho, start, q)
        &&& q.beta.len() == self.data.x_design.cols
        &&& all_finite_seq(q.beta)
        &&& means_of::<K>(family.link, eta, q.mu)
        &&& forall|i: int|
            0 <= i < self.data.y@.len() ==> #[trigger] row_valid::<L>(
                family.loss,
                self.data.y@,
                eta,
                q.mu,
                i,
            )
        &&& deviance_of::<F, L>(family.loss, self.data.y@, q.mu, self.prior(), q.dev)
        &&& q.dev.finite()
    }

    /// The least-squares step comes to nothing: a predictor, mean, coefficient or
    /// deviance is not finite, or the system cannot be factored.
    pub open spec fn step_fails<F: Arithmetic>(
        &self,
        family: Family<L, K, V>,
        newton: bool,
        rho: Seq<Double>,
        start: Seq<Double>,
    ) -> bool {
        let eta = mat_vec_of::<F>(self.data.x_design@, start);
        ||| !all_finite_seq(eta)
        ||| exists|mu: Seq<Double>| #[trigger] means_of::<K>(family.link, eta, mu) && !all_finite_seq(mu)
        ||| exists|q: LsReading<S>| #[trigger]
            self.at_pair::<F>(family, newton, start, q) && self.unfactored::<F>(rho, q.w)
        ||| exists|q: LsReading<S>| #[trigger]
            self.at_solution::<F>(family, newton, rho, start, q) && self.solution_fails::<F>(family, q)
    }

    /// The system of the least-squares step has no factor.
    pub open spec fn unfactored<F: Arithmetic>(&self, rho: Seq<Double>, w: Seq<Double>) -> bool {
        exists|e: crate::error::GamrsError| #[trigger]
            factored::<S>(relative_ridge_of::<F>(self.trial_system::<F>(rho, w), lit(E_M12)), Err(e))
    }

    /// The solution of the least-squares step, or what follows from it, is not
    /// finite.
    pub open spec fn solution_fails<F: Arithmetic>(&self, family: Family<L, K, V>, q: LsReading<S>) -> bool {
        let eta = mat_vec_of::<F>(self.data.x_design@, q.beta);
        ||| q.beta.len() != self.data.x_design.cols
        ||| !all_finite_seq(q.beta)
        ||| exists|mu: Seq<Double>| #[trigger]
            means_of::<K>(family.link, eta, mu) && self.end_fails::<F>(family, eta, mu)
    }

    /// A predictor, mean or deviance at the end of the step is not finite.
    pub open spec fn end_fails<F: Arithmetic>(&self, family: Family<L, K, V>, eta: Seq<Double>, mu: Seq<Double>) -> bool {
        ||| exists|i: int|
            0 <= i < self.data.y@.len() && #[trigger] row_invalid::<L>(
                family.loss,
                self.data.y@,
                eta,
                mu,
                i,
            )
        ||| exists|dev: Double| #[trigger]
            deviance_of::<F, L>(family.loss, self.data.y@, mu, self.prior(), dev) && !dev.finite()
    }

    fn ls_step<F: Arithmetic>(
        &self,
        family: &Family<L, K, V>,
        newton: bool,
        rho: &Vec<Double>,
        s_total: &Matrix,
        start: &Vec<Double>,
    ) -> (r: Option<(LsStep<S>, Ghost<LsReading<S>>)>)
        requires
            lawful::<F>(),
            self.wf(),
            rho@.len() == self.terms(),
            s_total.square(self.data.x_design.cols as nat),
            s_total@ == combined_s_of::<F>(
                self.data.s_list@,
                rho@,
                self.data.x_design.cols as nat,
            ),
            start@.len() == self.data.x_design.cols,
        ensures
            match r {
                Some(out) => {
                    let q = out.1@;
                    &&& self.at_end::<F>(*family, newton, rho@, start@, q)
                    &&& out.0.factor == q.factor
                    &&& out.0.beta@ == q.beta
                    &&& out.0.mu@ == q.mu
                    &&& out.0.dev == q.dev
                    &&& out.0.newton == newton
                    &&& out.0.beta@.len() == self.data.x_design.cols
                    &&& out.0.mu@.len() == self.data.y@.len()
                },
                None => self.step_fails::<F>(*family, newton, rho@, start@),
            },
    {
        let p: usize = self.data.x_design.cols;
        let eta: Vec<Double> = mat_vec::<F>(&self.data.x_design, start);
        if !all_finite(&eta) {
            return None;
        }
        let mu: Vec<Double> = means::<K>(&family.link, &eta);
        if !all_finite(&mu) {
            return None;
        }
        let prior: Vec<Double> = self.prior_weights();
        let (w, z) = standard_rows::<F, K, V>(
            &family.link,
            &family.variance,
            newton,
            &self.data.y,
            &mu,
            &eta,
            &prior,
        );
        let xtwx: Matrix = build_xtwx::<F>(&self.data.x_design, &w);
        let product = |i: usize| -> (v: Double)
            requires
                i < w@.len(),
            ensures
                v == times::<F>(w@[i as int], z@[i as int]),
            { times::<F>(w[i], z[i]) };
        let wz: Vec<Double> = fill_vec(w.len(), product);
        assert(wz@ =~= products_of::<F>(w@, z@));
        let xtwz: Vec<Double> = mat_t_vec::<F>(&self.data.x_design, &wz);
        let plain: Matrix = mat_plus::<F>(&xtwx, s_total);
        let a: Matrix = relative_ridge::<F>(&plain, lit(E_M12));
        assert(a@ == relative_ridge_of::<F>(self.trial_system::<F>(rho@, w@), lit(E_M12)));
        let factor: S::Factorization = match S::factorize(&a) {
            Ok(f) => f,
            Err(e) => {
                assert(factored::<S>(a@, Err(e)));
                assert(self.unfactored::<F>(rho@, w@));
                proof {
                    let q = arbitrary_reading::<S>(mu@, w@, z@);
                    assert(self.at_pair::<F>(*family, newton, start@, q));
                }
                return None;
            },
        };
        assert(factored::<S>(a@, Ok(factor)));
        let beta: Vec<Double> = S::solve(&factor, &xtwz);
        assert(solved::<S>(factor, xtwz@, beta@));
        let ghost mut q: LsReading<S> = LsReading {
            mu_warm: mu@,
            w: w@,
            z: z@,
            factor,
            beta: beta@,
            mu: Seq::empty(),
            dev: zero(),
        };
        assert(self.at_solution::<F>(*family, newton, rho@, start@, q));
        if beta.len() != p || !all_finite(&beta) {
            assert(self.solution_fails::<F>(*family, q));
            return None;
        }
        let eta_ls: Vec<Double> = mat_vec::<F>(&self.data.x_design, &beta);
        let mu_ls: Vec<Double> = means::<K>(&family.link, &eta_ls);
        if !eta_mu_valid::<L>(&family.loss, &self.data.y, &eta_ls, &mu_ls) {
            assert(self.end_fails::<F>(*family, eta_ls@, mu_ls@));
            assert(self.solution_fails::<F>(*family, q));
            return None;
        }
        let dev: Double = compute_deviance::<F, L>(&family.loss, &self.data.y, &mu_ls, &prior);
        if !dev.is_finite() {
            assert(self.end_fails::<F>(*family, eta_ls@, mu_ls@));
            assert(self.solution_fails::<F>(*family, q));
            return None;
        }
        proof {
            q = LsReading { mu: mu_ls@, dev, ..q };
            assert(self.at_solution::<F>(*family, newton, rho@, start@, q));
        }
        assert(self.at_end::<F>(*family, newton, rho@, start@, q));
        Some((LsStep { factor, beta, mu: mu_ls, dev, newton }, Ghost(q)))
    }
}

/// A reading of which only the working pair is given.
spec fn arbitrary_reading<S: LinearSolver>(mu_warm: Seq<Double>, w: Seq<Double>, z: Seq<Double>) -> LsReading<S> {
    LsReading {
        mu_warm,
        w,
        z,
        factor: arbitrary(),
        beta: Seq::empty(),
        mu: Seq::empty(),
        dev: zero(),
    }
}

impl<L: ShapeLoss<K, V>, K: Link, V: VarianceFn, B, P, D: DenseBackend, S: LinearSolver> ShapeAwareEnvelopeScore<
    L,
    K,
    V,
    B,
    P,
    D,
    S,
> {
    /// The Newton weights in the log determinant of a trial.
    pub open spec fn score_weights_read<F: Arithmetic>(&self, family: Family<L, K, V>, mu: Seq<Double>, w: Seq<Double>) -> bool {
        newton_weights_of::<F, K, V>(
            family.link,
            family.variance,
            self.data.y@,
            mu,
            self.prior(),
            w,
        )
    }

    /// The log determinant of a trial: at Newton weights where the loss uses the
    /// observed information and they give a finite one, else that of the step's
    /// own factor.
    pub open spec fn trial_log_det<F: Arithmetic>(
        &self,
        family: Family<L, K, V>,
        newton: bool,
        rho: Seq<Double>,
        q: LsReading<S>,
        r: Double,
    ) -> bool {
        if !newton {
            call_ensures(S::logdet, (&q.factor,), r)
        } else {
            exists|w: Seq<Double>| #[trigger]
                self.score_weights_read::<F>(family, q.mu, w) && {
                    ||| !all_finite_seq(w) && call_ensures(S::logdet, (&q.factor,), r)
                    ||| all_finite_seq(w) && self.newton_trial_log_det::<F>(rho, q, w, r)
                }
        }
    }

    /// The log determinant of a trial at finite Newton weights.
    pub open spec fn newton_trial_log_det<F: Arithmetic>(
        &self,
        rho: Seq<Double>,
        q: LsReading<S>,
        w: Seq<Double>,
        r: Double,
    ) -> bool {
        ||| call_ensures(S::logdet, (&q.factor,), r) && self.no_newton_log_det::<F>(rho, w)
        ||| r.finite() && exists|f: S::Factorization| #[trigger]
            factored::<S>(self.trial_system::<F>(rho, w), Ok(f)) && call_ensures(S::logdet, (&f,), r)
    }

    /// The matrix at Newton weights has no factor, or its log determinant is not
    /// finite.
    pub open spec fn no_newton_log_det<F: Arithmetic>(&self, rho: Seq<Double>, w: Seq<Double>) -> bool {
        ||| exists|e: crate::error::GamrsError| #[trigger]
            factored::<S>(self.trial_system::<F>(rho, w), Err(e))
        ||| exists|f: S::Factorization, v: Double|
            factored::<S>(self.trial_system::<F>(rho, w), Ok(f)) && !v.finite() && #[trigger] call_ensures(
                S::logdet,
                (&f,),
                v,
            )
    }

    fn log_det_of_trial<F: Arithmetic>(
        &self,
        family: &Family<L, K, V>,
        rho: &Vec<Double>,
        s_total: &Matrix,
        step: &LsStep<S>,
        Ghost(q): Ghost<LsReading<S>>,
    ) -> (r: Double)
        requires
            lawful::<F>(),
            self.wf(),
            rho@.len() == self.terms(),
            s_total.square(self.data.x_design.cols as nat),
            s_total@ == combined_s_of::<F>(
                self.data.s_list@,
                rho@,
                self.data.x_design.cols as nat,
            ),
            step.factor == q.factor,
            step.mu@ == q.mu,
            step.mu@.len() == self.data.y@.len(),
        ensures
            self.trial_log_det::<F>(*family, step.newton, rho@, q, r),
    {
        if !step.newton {
            return S::logdet(&step.factor);
        }
        let prior: Vec<Double> = self.prior_weights();
        let w: Vec<Double> = newton_score_weights::<F, K, V>(
            &family.link,
            &family.variance,
            &self.data.y,
            &step.mu,
            &prior,
        );
        assert(self.score_weights_read::<F>(*family, q.mu, w@));
        if !all_finite(&w) {
            return S::logdet(&step.factor);
        }
        let xtwx: Matrix = build_xtwx::<F>(&self.data.x_design, &w);
        let a: Matrix = mat_plus::<F>(&xtwx, s_total);
        assert(a@ == self.trial_system::<F>(rho@, w@));
        match S::factorize(&a) {
            Ok(f) => {
                assert(factored::<S>(a@, Ok(f)));
                let v: Double = S::logdet(&f);
                if v.is_finite() {
                    v
                } else {
                    assert(self.no_newton_log_det::<F>(rho@, w@));
                    S::logdet(&step.factor)
                }
            },
            Err(e) => {
                assert(factored::<S>(a@, Err(e)));
                S::logdet(&step.factor)
            },
        }
    }

    /// The dispersion of a trial: the family's own, else `Dp / (n - Mp)`, at least
    /// 1e-8; `None` where either is not above zero.
    pub open spec fn trial_phi<F: Arithmetic>(&self, family: Family<L, K, V>, dp: Double, r: Option<Double>) -> bool {
        exists|own: Option<Double>| #[trigger]
            call_ensures(L::fixed_dispersion, (&family.loss,), own) && match own {
                Some(v) => r == Some(v),
                None => {
                    let nm = n_minus_mp_of::<F>(self.data.y.len(), self.mp);
                    if nm.at_most(zero()) || dp.at_most(zero()) {
                        r is None
                    } else {
                        r == Some(over::<F>(dp, nm).max_spec(lit(E_M8)))
                    }
                },
            }
    }

    fn phi_of_trial<F: Arithmetic>(&self, family: &Family<L, K, V>, dp: Double) -> (r: Option<Double>)
        requires
            lawful::<F>(),
        ensures
            self.trial_phi::<F>(*family, dp, r),
    {
        let own: Option<Double> = family.loss.fixed_dispersion();
        match own {
            Some(v) => Some(v),
            None => {
                let nm: Double = minus::<F>(count::<F>(self.data.y.len()), count::<F>(self.mp));
                if nm.le(zero()) {
                    return None;
                }
                if dp.le(zero()) {
                    return None;
                }
                Some(over::<F>(dp, nm).max(lit(E_M8)))
            },
        }
    }

    /// What was read about a trial after its least-squares step.
    pub open spec fn trial_read<F: Arithmetic>(
        &self,
        family: Family<L, K, V>,
        newton: bool,
        rho: Seq<Double>,
        q: LsReading<S>,
        t: TrialReading,
    ) -> bool {
        &&& self.trial_log_det::<F>(family, newton, rho, q, t.log_det_h)
        &&& call_ensures(<L as ShapeLoss<K, V>>::score_rank_adjustment, (&family.loss,), t.adj)
        &&& self.trial_phi::<F>(
            family,
            plus::<F>(q.dev, self.bsb_total_of::<F>(rho, q.beta)),
            Some(t.phi),
        )
        &&& sat_read::<L>(family.loss, self.data.y@, t.phi, t.sat)
    }

    /// The score of a trial.
    pub open spec fn trial_value<F: Arithmetic>(&self, rho: Seq<Double>, q: LsReading<S>, t: TrialReading) -> Double {
        reml_of::<F>(
            plus::<F>(q.dev, self.bsb_total_of::<F>(rho, q.beta)),
            t.phi,
            self.mp,
            t.log_det_h,
            adjusted_log_det_of::<F>(self.rank_s_list@, t.adj, rho, self.log_pseudo_det_s_list@),
            total::<F>(|i: int| t.sat[i], self.data.y@.len()),
        )
    }

    /// A trial scored after its least-squares step, for some reading of it.
    pub open spec fn scored_after<F: Arithmetic>(
        &self,
        family: Family<L, K, V>,
        newton: bool,
        rho: Seq<Double>,
        q: LsReading<S>,
        v: Double,
    ) -> bool {
        exists|t: TrialReading| #[trigger]
            self.trial_read::<F>(family, newton, rho, q, t) && t.log_det_h.finite() && v
                == self.trial_value::<F>(rho, q, t)
    }

    /// A trial that cannot be scored after its least-squares step: its log
    /// determinant or its score is not finite, or it is not physical.
    pub open spec fn unscored_after<F: Arithmetic>(
        &self,
        family: Family<L, K, V>,
        newton: bool,
        rho: Seq<Double>,
        q: LsReading<S>,
    ) -> bool {
        ||| exists|d: Double| #[trigger]
            self.trial_log_det::<F>(family, newton, rho, q, d) && !d.finite()
        ||| self.trial_phi::<F>(
            family,
            plus::<F>(q.dev, self.bsb_total_of::<F>(rho, q.beta)),
            None,
        )
        ||| exists|v: Double| #[trigger] self.scored_after::<F>(family, newton, rho, q, v) && !v.finite()
    }

    /// A trial score, for some answers of family and solver.
    pub open spec fn trial_scored<F: Arithmetic>(&self, theta: Seq<Double>, start: Seq<Double>, v: Double) -> bool {
        exists|family: Family<L, K, V>, newton: bool, q: LsReading<S>|
            self.shaped(theta, family) && call_ensures(L::use_newton_irls, (&family.loss,), newton)
                && #[trigger] self.at_end::<F>(family, newton, self.rho_of(theta), start, q)
                && self.scored_after::<F>(family, newton, self.rho_of(theta), q, v) && v.finite()
    }

    /// A trial that has no score, for some answers of family and solver.
    pub open spec fn trial_unscored<F: Arithmetic>(&self, theta: Seq<Double>, start: Seq<Double>) -> bool {
        exists|family: Family<L, K, V>, newton: bool|
            self.shaped(theta, family) && #[trigger] call_ensures(
                L::use_newton_irls,
                (&family.loss,),
                newton,
            ) && (self.step_fails::<F>(family, newton, self.rho_of(theta), start) || self.ends_unscored::<F>(
                family,
                newton,
                self.rho_of(theta),
                start,
            ))
    }

    /// The least-squares step ends in a trial that cannot be scored.
    pub open spec fn ends_unscored<F: Arithmetic>(
        &self,
        family: Family<L, K, V>,
        newton: bool,
        rho: Seq<Double>,
        start: Seq<Double>,
    ) -> bool {
        exists|q: LsReading<S>| #[trigger]
            self.at_end::<F>(family, newton, rho, start, q) && self.unscored_after::<F>(
                family,
                newton,
                rho,
                q,
            )
    }

    /// What a trial score without a full fit comes to, and how it is counted.
    pub open spec fn trial_of<F: Arithmetic>(
        &self,
        state: Option<AcceptedState>,
        theta: Seq<Double>,
        before: Option<FitStats>,
        r: Option<Double>,
        after: Option<FitStats>,
    ) -> bool {
        exists|allowed: bool| #[trigger]
            call_ensures(L::allows_no_refresh, (&self.family_base.loss,), allowed) && tallied(
                before,
                after,
                allowed,
                r is Some,
                None,
            ) && if allowed {
                match self.carried_start::<F>(state, theta) {
                    Some(start) => match r {
                        Some(v) => self.trial_scored::<F>(theta, start, v),
                        None => self.trial_unscored::<F>(theta, start),
                    },
                    None => r is None,
                }
            } else {
                r is None
            }
    }

    fn score_trial<F: Arithmetic>(&self, theta: &Vec<Double>, start: &Vec<Double>) -> (r: Option<Double>)
        requires
            lawful::<F>(),
            self.wf(),
            theta@.len() == self.axes(),
            start@.len() == self.data.x_design.cols,
        ensures
            match r {
                Some(v) => self.trial_scored::<F>(theta@, start@, v),
                None => self.trial_unscored::<F>(theta@, start@),
            },
    {
        let m: usize = self.data.s_list.len();
        let rho: Vec<Double> = head(theta, m);
        let family: Family<L, K, V> = self.family_at(theta);
        let newton: bool = family.loss.use_newton_irls();
        let s_total: Matrix = combined_s::<F>(&self.data.s_list, &rho, self.data.x_design.cols);
        let (step, reading) = match self.ls_step::<F>(&family, newton, &rho, &s_total, start) {
            Some(out) => out,
            None => return None,
        };
        let ghost q = reading@;
        assert(self.at_end::<F>(family, newton, self.rho_of(theta@), start@, q));
        let log_det_h: Double = self.log_det_of_trial::<F>(
            &family,
            &rho,
            &s_total,
            &step,
            Ghost(q),
        );
        assert(self.trial_log_det::<F>(family, newton, self.rho_of(theta@), q, log_det_h));
        if !log_det_h.is_finite() {
            assert(self.unscored_after::<F>(family, newton, self.rho_of(theta@), q));
            assert(self.ends_unscored::<F>(family, newton, self.rho_of(theta@), start@));
            return None;
        }
        let adj: i32 = family.loss.score_rank_adjustment();
        let lambda: Vec<Double> = lambdas::<F>(&rho);
        let bsb: Vec<Double> = self.penalties::<F>(&step.beta);
        let bsb_total: Double = dot::<F>(&lambda, &bsb);
        let log_det_penalty: Double = adjusted_log_det::<F>(
            &self.rank_s_list,
            adj,
            &rho,
            &self.log_pseudo_det_s_list,
        );
        let dp: Double = plus::<F>(step.dev, bsb_total);
        let phi: Double = match self.phi_of_trial::<F>(&family, dp) {
            Some(v) => v,
            None => {
                assert(self.unscored_after::<F>(family, newton, self.rho_of(theta@), q));
                assert(self.ends_unscored::<F>(family, newton, self.rho_of(theta@), start@));
                return None;
            },
        };
        let (ls_sum, sat) = sat_sum::<F, L>(&family.loss, &self.data.y, phi);
        let v: Double = reml::<F>(dp, phi, self.mp, log_det_h, log_det_penalty, ls_sum);
        proof {
            let t = TrialReading { log_det_h, adj, phi, sat: sat@ };
            assert(self.trial_read::<F>(family, newton, self.rho_of(theta@), q, t));
            assert(v == self.trial_value::<F>(self.rho_of(theta@), q, t));
        }
        assert(self.scored_after::<F>(family, newton, self.rho_of(theta@), q, v));
        if v.is_finite() {
            Some(v)
        } else {
            assert(self.unscored_after::<F>(family, newton, self.rho_of(theta@), q));
            assert(self.ends_unscored::<F>(family, newton, self.rho_of(theta@), start@));
            None
        }
    }

    /// A trial score without a full inner fit, from the state of the last accepted
    /// point. `None` where the family does not allow it, nothing usable is kept,
    /// the shape parameters moved, or something on the way is not finite.
    pub fn compute_value_no_refresh<F: Arithmetic>(
        &self,
        state: &Option<AcceptedState>,
        theta: &Vec<Double>,
        before: Option<FitStats>,
    ) -> (r: (Option<Double>, Option<FitStats>))
        requires
            lawful::<F>(),
            self.wf(),
            theta@.len() == self.axes(),
        ensures
            self.trial_of::<F>(*state, theta@, before, r.0, r.1),
    {
        let allowed: bool = self.family_base.loss.allows_no_refresh();
        if !allowed {
            let after: Option<FitStats> = tally(before, false, false, None);
            return (None, after);
        }
        let v: Option<Double> = match self.carry::<F>(state, theta) {
            Some(start) => self.score_trial::<F>(theta, &start),
            None => None,
        };
        let after: Option<FitStats> = tally(before, true, v.is_some(), None);
        (v, after)
    }
}

/// What was read about a trial after its least-squares step.
pub struct TrialReading {
    /// Log determinant.
    pub log_det_h: Double,
    /// Rank adjustment.
    pub adj: i32,
    /// Dispersion.
    pub phi: Double,
    /// Saturated log-likelihoods.
    pub sat: Seq<Double>,
}

/// No trial is scored from a state whose shape parameters are not those of the
/// point.
pub proof fn law_moved_shape_is_not_scored<
    F: Arithmetic,
    L: ShapeLoss<K, V>,
    K: Link,
    V: VarianceFn,
    B,
    P,
    D: DenseBackend,
    S: LinearSolver,
>(
    score: ShapeAwareEnvelopeScore<L, K, V, B, P, D, S>,
    state: AcceptedState,
    theta: Seq<Double>,
    before: Option<FitStats>,
    r: Option<Double>,
    after: Option<FitStats>,
)
    requires
        score.trial_of::<F>(Some(state), theta, before, r, after),
        !same_numbers(theta.skip(score.terms() as int), state.shape_params@),
    ensures
        r is None,
{
}

/// A score without a full fit is always finite, and is counted as an attempt and
/// as a hit.
pub proof fn law_trial_scores_are_finite<
    F: Arithmetic,
    L: ShapeLoss<K, V>,
    K: Link,
    V: VarianceFn,
    B,
    P,
    D: DenseBackend,
    S: LinearSolver,
>(
    score: ShapeAwareEnvelopeScore<L, K, V, B, P, D, S>,
    state: Option<AcceptedState>,
    theta: Seq<Double>,
    before: Option<FitStats>,
    v: Double,
    after: Option<FitStats>,
)
    requires
        score.trial_of::<F>(state, theta, before, Some(v), after),
    ensures
        v.finite(),
        tallied(before, after, true, true, None),
{
}

} // verus!
