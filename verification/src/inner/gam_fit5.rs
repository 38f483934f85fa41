//! Reweighted least squares for ordered categories.

use vstd::prelude::*;

use crate::arith::{count, lawful, minus, over, plus, root, round_int, times, total, Arithmetic};
use crate::dense::{
    add_penalty, add_penalty_of, beta_sbeta, beta_sbeta_of, mat_mul, mat_mul_of, mat_vec,
    mat_vec_of, max_diag, max_diag_upto, relative_ridge, relative_ridge_of, ridged, ridged_of,
    weighted_xt, weighted_xt_of,
};
use crate::double::{half, lit, one, two, zero, Double, E_M12, E_M5, MINUS_TWO, MIN_POSITIVE};
use crate::error::GamrsError;
use crate::inner::closed_form::{owned_weights_view, prior_or_ones, weights_or_ones};
use crate::inner::linalg::{factored, solved, LinearSolver};
use crate::inner::pirls::PirlsOpts;
use crate::inner::{
    all_finite, combined_s, combined_s_of, half_way, half_way_of, halving_course, max_change,
    max_change_upto, penalties_fit, verdict_at, working_rss, working_rss_of, GaussianInnerFit,
    Halving, HalvingVerdict, Trial,
};
use crate::matrix::{fill_vec, Matrix};

verus! {

/// The loss of ordered categories.
pub trait OcatLoss {
    /// Number of categories.
    fn n_cats(&self) -> usize;

    /// Cut points, one more than there are categories.
    fn alpha(&self) -> Vec<Double>;

    /// Deviance of one observation.
    fn deviance_per_obs(&self, y: Double, mu: Double) -> Double;

    /// Probability between two cut points.
    fn fdiff_boundary(lo: Double, hi: Double) -> Double;

    /// First helper of the derivatives at a cut point.
    fn abcd_a(x: Double) -> Double;

    /// Second helper of the derivatives at a cut point.
    fn abcd_b(x: Double) -> Double;
}

/// The category of a response: the nearest integer, moved into `1..=r`.
pub open spec fn category_of<F: Arithmetic>(y: Double, r: int) -> int {
    let k = round_int::<F>(y) as int;
    if k < 1 {
        1
    } else if k > r {
        r
    } else {
        k
    }
}

/// The category of a response.
pub fn category<F: Arithmetic>(y: Double, r: usize) -> (k: usize)
    requires
        lawful::<F>(),
        1 <= r <= i64::MAX,
    ensures
        k == category_of::<F>(y, r as int),
        1 <= k <= r,
{
    let k: i64 = round_int::<F>(y);
    if k < 1 {
        1
    } else if k > r as i64 {
        r
    } else {
        k as usize
    }
}

/// Where a category's linear predictor starts: the middle between its cut points.
/// The outer categories use -2 and one above the last inner cut point.
pub open spec fn eta_start_of<F: Arithmetic>(alpha: Seq<Double>, k: int, r: int) -> Double {
    let lo = if k == 1 {
        lit(MINUS_TWO)
    } else {
        alpha[k - 1]
    };
    let hi = if k == r {
        plus::<F>(alpha[r - 1], one())
    } else {
        alpha[k]
    };
    times::<F>(half(), plus::<F>(lo, hi))
}

/// Where a category's linear predictor starts.
pub fn eta_start<F: Arithmetic>(alpha: &Vec<Double>, k: usize, r: usize) -> (e: Double)
    requires
        lawful::<F>(),
        1 <= k <= r,
        alpha@.len() == r + 1,
    ensures
        e == eta_start_of::<F>(alpha@, k as int, r as int),
{
    let lo: Double = if k == 1 {
        lit(MINUS_TWO)
    } else {
        alpha[k - 1]
    };
    let hi: Double = if k == r {
        plus::<F>(alpha[r - 1], one())
    } else {
        alpha[k]
    };
    times::<F>(half(), plus::<F>(lo, hi))
}

/// The helpers at the two cut points around an observation.
#[derive(Clone, Copy, Debug)]
pub struct CutValues {
    /// Probability between the cut points.
    pub f: Double,
    /// First helper at the lower and the upper cut point.
    pub a: (Double, Double),
    /// Second helper at the lower and the upper cut point.
    pub b: (Double, Double),
}

/// First and second derivative of an observation's deviance in the mean.
pub open spec fn ocat_derivs_of<F: Arithmetic>(c: CutValues) -> (Double, Double) {
    let f = c.f.max_spec(lit(MIN_POSITIVE));
    let a = minus::<F>(c.a.1, c.a.0);
    let b = minus::<F>(c.b.1, c.b.0);
    (
        over::<F>(times::<F>(lit(MINUS_TWO), a), f),
        over::<F>(times::<F>(two(), minus::<F>(over::<F>(times::<F>(a, a), f), b)), f),
    )
}

/// First and second derivative of an observation's deviance in the mean.
pub fn ocat_derivs<F: Arithmetic>(c: CutValues) -> (r: (Double, Double))
    requires
        lawful::<F>(),
    ensures
        r == ocat_derivs_of::<F>(c),
{
    let f: Double = c.f.max(lit(MIN_POSITIVE));
    let a: Double = minus::<F>(c.a.1, c.a.0);
    let b: Double = minus::<F>(c.b.1, c.b.0);
    let d1: Double = over::<F>(times::<F>(lit(MINUS_TWO), a), f);
    let d2: Double = over::<F>(
        times::<F>(two(), minus::<F>(over::<F>(times::<F>(a, a), f), b)),
        f,
    );
    (d1, d2)
}

/// Working weight and response: `max(D'' w / 2, 1e-12)` and
/// `eta - D' / max(D'', 1e-12)`.
pub open spec fn ocat_row_of<F: Arithmetic>(eta: Double, prior: Double, d: (Double, Double)) -> (Double, Double) {
    (
        times::<F>(times::<F>(half(), d.1), prior).max_spec(lit(E_M12)),
        minus::<F>(eta, over::<F>(d.0, d.1.max_spec(lit(E_M12)))),
    )
}

/// Working weight and response of an observation.
pub fn ocat_row<F: Arithmetic>(eta: Double, prior: Double, d: (Double, Double)) -> (r: (Double, Double))
    requires
        lawful::<F>(),
    ensures
        r == ocat_row_of::<F>(eta, prior, d),
{
    (
        times::<F>(times::<F>(half(), d.1), prior).max(lit(E_M12)),
        minus::<F>(eta, over::<F>(d.0, d.1.max(lit(E_M12)))),
    )
}

/// The ridge factor for a number of penalties: `1e-5 (1 + sqrt(n))`.
pub open spec fn ridge_scale_of<F: Arithmetic>(n_pen: usize) -> Double {
    times::<F>(lit(E_M5), plus::<F>(one(), root::<F>(count::<F>(n_pen))))
}

/// The ridge factor for a number of penalties.
pub fn ridge_scale<F: Arithmetic>(n_pen: usize) -> (r: Double)
    requires
        lawful::<F>(),
    ensures
        r == ridge_scale_of::<F>(n_pen),
{
    times::<F>(lit(E_M5), plus::<F>(one(), root::<F>(count::<F>(n_pen))))
}

/// Control of the iterations. Unlike the exponential families, a failed step does
/// not end them.
#[derive(Clone, Copy, Debug, PartialEq, Eq, Structural)]
pub struct OcatRun {
    /// Iteration limit.
    pub max_iters: usize,
    /// Largest change of a coefficient below which the iterations converged.
    pub tol: Double,
    /// Iterations done.
    pub iters_used: usize,
    /// Converged.
    pub converged: bool,
    /// No further iteration.
    pub stopped: bool,
}

impl OcatRun {
    /// Within the limit, and stopped where the limit is reached.
    pub open spec fn wf(self) -> bool {
        &&& self.iters_used <= self.max_iters
        &&& !self.stopped ==> self.iters_used < self.max_iters && !self.converged
        &&& self.converged ==> self.stopped && self.iters_used >= 2
    }

    /// Before the first iteration.
    pub open spec fn started(max_iters: usize, tol: Double) -> OcatRun {
        OcatRun { max_iters, tol, iters_used: 0, converged: false, stopped: max_iters == 0 }
    }

    /// Before the first iteration.
    pub fn begin(max_iters: usize, tol: Double) -> (r: OcatRun)
        ensures
            r == OcatRun::started(max_iters, tol),
            r.wf(),
    {
        OcatRun { max_iters, tol, iters_used: 0, converged: false, stopped: max_iters == 0 }
    }

    /// After an iteration: the largest change of an accepted step, or `None`.
    pub open spec fn after(self, change: Option<Double>) -> OcatRun {
        let converged = match change {
            Some(c) => self.iters_used > 0 && c.below(self.tol),
            None => false,
        };
        OcatRun {
            iters_used: (self.iters_used + 1) as usize,
            converged,
            stopped: converged || self.iters_used + 1 >= self.max_iters,
            ..self
        }
    }

    /// Records an iteration.
    pub fn advance(&mut self, change: Option<Double>)
        requires
            old(self).wf(),
            !old(self).stopped,
        ensures
            *final(self) == old(self).after(change),
            final(self).wf(),
    {
        let converged: bool = match change {
            Some(c) => self.iters_used > 0 && c.lt(self.tol),
            None => false,
        };
        self.iters_used = self.iters_used + 1;
        self.converged = converged;
        self.stopped = converged || self.iters_used >= self.max_iters;
    }
}

/// A failed step does not end the iterations while there are any left.
pub proof fn law_failed_step_continues(r: OcatRun)
    requires
        r.wf(),
        !r.stopped,
        r.iters_used + 1 < r.max_iters,
    ensures
        !r.after(None).stopped,
        !r.after(None).converged,
{
}

/// The solver of ordered categories.
pub struct OcatInner<O: OcatLoss> {
    /// Design matrix.
    pub x_design: Matrix,
    /// Response.
    pub y: Vec<Double>,
    /// Prior weights.
    pub prior_weights: Option<Vec<Double>>,
    /// One penalty per smooth term.
    pub s_list: Vec<Matrix>,
    /// Loss.
    pub loss: O,
    /// Options.
    pub opts: PirlsOpts,
}

/// `c` are answers of the loss around an observation.
pub open spec fn cuts_read<F: Arithmetic, O: OcatLoss>(alpha: Seq<Double>, k: int, mu: Double, c: CutValues) -> bool {
    let lo = minus::<F>(alpha[k - 1], mu);
    let hi = minus::<F>(alpha[k], mu);
    &&& call_ensures(O::fdiff_boundary, (lo, hi), c.f)
    &&& call_ensures(O::abcd_a, (lo,), c.a.0)
    &&& call_ensures(O::abcd_a, (hi,), c.a.1)
    &&& call_ensures(O::abcd_b, (lo,), c.b.0)
    &&& call_ensures(O::abcd_b, (hi,), c.b.1)
}

/// `(w, z)` is the working pair of one observation for some answers of the loss.
pub open spec fn ocat_row_from<F: Arithmetic, O: OcatLoss>(
    alpha: Seq<Double>,
    k: int,
    eta: Double,
    prior: Double,
    w: Double,
    z: Double,
) -> bool {
    exists|c: CutValues| #[trigger]
        cuts_read::<F, O>(alpha, k, eta, c) && (w, z) == ocat_row_of::<F>(
            eta,
            prior,
            ocat_derivs_of::<F>(c),
        )
}

/// `(w, z)` is the working pair at a linear predictor for some answers of the
/// loss.
pub open spec fn ocat_pair<F: Arithmetic, O: OcatLoss>(
    alpha: Seq<Double>,
    r: int,
    y: Seq<Double>,
    eta: Seq<Double>,
    prior: Seq<Double>,
    w: Seq<Double>,
    z: Seq<Double>,
) -> bool {
    &&& w.len() == y.len()
    &&& z.len() == y.len()
    &&& forall|i: int|
        0 <= i < y.len() ==> ocat_row_from::<F, O>(
            alpha,
            category_of::<F>(y[i], r),
            eta[i],
            prior[i],
            #[trigger] w[i],
            z[i],
        )
}

/// Working weights and response at a linear predictor.
pub fn ocat_rows<F: Arithmetic, O: OcatLoss>(
    alpha: &Vec<Double>,
    r: usize,
    y: &Vec<Double>,
    eta: &Vec<Double>,
    prior: &Vec<Double>,
) -> (pair: (Vec<Double>, Vec<Double>))
    requires
        lawful::<F>(),
        1 <= r <= i64::MAX,
        alpha@.len() == r + 1,
        eta@.len() == y@.len(),
        prior@.len() == y@.len(),
    ensures
        ocat_pair::<F, O>(alpha@, r as int, y@, eta@, prior@, pair.0@, pair.1@),
{
    let mut w: Vec<Double> = Vec::new();
    let mut z: Vec<Double> = Vec::new();
    for i in 0..y.len()
        invariant
            lawful::<F>(),
            1 <= r <= i64::MAX,
            alpha@.len() == r + 1,
            eta@.len() == y@.len(),
            prior@.len() == y@.len(),
            w@.len() == i,
            z@.len() == i,
            forall|m: int|
                0 <= m < i ==> ocat_row_from::<F, O>(
                    alpha@,
                    category_of::<F>(y@[m], r as int),
                    eta@[m],
                    prior@[m],
                    #[trigger] w@[m],
                    z@[m],
                ),
    {
        let k: usize = category::<F>(y[i], r);
        let mu: Double = eta[i];
        let lo: Double = minus::<F>(alpha[k - 1], mu);
        let hi: Double = minus::<F>(alpha[k], mu);
        let c: CutValues = CutValues {
            f: O::fdiff_boundary(lo, hi),
            a: (O::abcd_a(lo), O::abcd_a(hi)),
            b: (O::abcd_b(lo), O::abcd_b(hi)),
        };
        assert(cuts_read::<F, O>(alpha@, k as int, mu, c));
        let d: (Double, Double) = ocat_derivs::<F>(c);
        let (wi, zi) = ocat_row::<F>(mu, prior[i], d);
        assert(ocat_row_from::<F, O>(alpha@, k as int, mu, prior@[i as int], wi, zi));
        w.push(wi);
        z.push(zi);
    }
    (w, z)
}

/// `d` is the weighted deviance for some answers of the loss.
pub open spec fn ocat_deviance_of<F: Arithmetic, O: OcatLoss>(
    loss: O,
    y: Seq<Double>,
    eta: Seq<Double>,
    prior: Seq<Double>,
    d: Double,
) -> bool {
    exists|dev: Seq<Double>|
        #![trigger dev.len()]
        dev.len() == y.len() && (forall|i: int|
            0 <= i < y.len() ==> call_ensures(O::deviance_per_obs, (&loss, y[i], eta[i]), #[trigger] dev[i]))
            && d == total::<F>(|i: int| times::<F>(prior[i], dev[i]), y.len())
}

/// The weighted deviance at a linear predictor.
pub fn ocat_deviance<F: Arithmetic, O: OcatLoss>(
    loss: &O,
    y: &Vec<Double>,
    eta: &Vec<Double>,
    prior: &Vec<Double>,
) -> (d: Double)
    requires
        lawful::<F>(),
        eta@.len() == y@.len(),
        prior@.len() == y@.len(),
    ensures
        ocat_deviance_of::<F, O>(*loss, y@, eta@, prior@, d),
{
    let mut dev: Vec<Double> = Vec::new();
    for i in 0..y.len()
        invariant
            eta@.len() == y@.len(),
            dev@.len() == i,
            forall|k: int|
                0 <= k < i ==> call_ensures(O::deviance_per_obs, (loss, y@[k], eta@[k]), #[trigger] dev@[k]),
    {
        dev.push(loss.deviance_per_obs(y[i], eta[i]));
    }
    let mut acc: Double = zero();
    for i in 0..y.len()
        invariant
            lawful::<F>(),
            prior@.len() == y@.len(),
            dev@.len() == y@.len(),
            acc == total::<F>(|i: int| times::<F>(prior@[i], dev@[i]), i as nat),
    {
        acc = plus::<F>(acc, times::<F>(prior[i], dev[i]));
    }
    assert(dev@.len() == y@.len());
    acc
}

/// One iteration: the working pair, the factor, the proposed coefficients, the
/// trials of its halving, and the point it leads to.
pub struct OcatStep<S: LinearSolver> {
    /// Working weights.
    pub w: Seq<Double>,
    /// Working response.
    pub z: Seq<Double>,
    /// Factor of the ridged system.
    pub factor: S::Factorization,
    /// Proposed coefficients.
    pub proposed: Seq<Double>,
    /// Trials of the halving.
    pub trials: Seq<Trial>,
    /// Whether the last trial was accepted.
    pub accepted: bool,
    /// The point after the iteration.
    pub next: Trial,
}

/// The point after some iterations.
pub open spec fn ocat_point<S: LinearSolver>(start: Trial, steps: Seq<OcatStep<S>>) -> Trial {
    if steps.len() == 0 {
        start
    } else {
        steps.last().next
    }
}

/// The control after some iterations.
pub open spec fn ocat_control<F: Arithmetic, S: LinearSolver>(
    opts: PirlsOpts,
    start: Trial,
    steps: Seq<OcatStep<S>>,
) -> OcatRun
    decreases steps.len(),
{
    if steps.len() == 0 {
        OcatRun::started(opts.max_iters, opts.dev_rel_tol)
    } else {
        let before = ocat_point::<S>(start, steps.drop_last());
        let s = steps.last();
        ocat_control::<F, S>(opts, start, steps.drop_last()).after(
            if s.accepted {
                Some(max_change_upto::<F>(s.next.beta@, before.beta@, before.beta@.len()))
            } else {
                None
            },
        )
    }
}

impl<O: OcatLoss> OcatInner<O> {
    /// The shapes agree.
    pub open spec fn wf(&self) -> bool {
        &&& self.x_design.shape(self.y@.len(), self.x_design.cols as nat)
        &&& (self.prior_weights matches Some(v) ==> v@.len() == self.y@.len())
        &&& penalties_fit(self.s_list@, self.x_design.cols as nat)
        &&& (self.opts.eta_init matches Some(v) ==> v@.len() == self.y@.len())
    }

    /// The prior weights, or ones.
    pub open spec fn prior(&self) -> Seq<Double> {
        weights_or_ones(owned_weights_view(self.prior_weights), self.y@.len())
    }

    /// The cross-product at weights `w`.
    pub open spec fn cross<F: Arithmetic>(&self, w: Seq<Double>) -> Seq<Seq<Double>> {
        let p = self.x_design.cols as nat;
        mat_mul_of::<F>(weighted_xt_of::<F>(self.x_design@, p, w), self.x_design@, p)
    }

    /// The system of an iteration: the penalised cross-product, with a ridge
    /// relative to the largest diagonal entry of the cross-product alone.
    pub open spec fn system<F: Arithmetic>(&self, s_total: Seq<Seq<Double>>, w: Seq<Double>) -> Seq<Seq<Double>> {
        let c = self.cross::<F>(w);
        ridged_of::<F>(
            add_penalty_of::<F>(c, s_total, one()),
            times::<F>(ridge_scale_of::<F>(self.s_list.len()), max_diag_upto(c, c.len())),
        )
    }

    /// The deviance of a trial, as the loss answers, and its penalised deviance.
    pub open spec fn deviances<F: Arithmetic>(&self, s_total: Seq<Seq<Double>>, t: Trial) -> bool {
        &&& ocat_deviance_of::<F, O>(self.loss, self.y@, t.eta@, self.prior(), t.dev)
        &&& t.pdev == plus::<F>(t.dev, times::<F>(one(), beta_sbeta_of::<F>(s_total, t.beta@)))
    }

    /// A trial belongs to its coefficients; it is valid if its linear predictor is
    /// finite.
    pub open spec fn trial_of<F: Arithmetic>(&self, s_total: Seq<Seq<Double>>, t: Trial) -> bool {
        &&& t.beta@.len() == self.x_design.cols
        &&& t.eta@ == mat_vec_of::<F>(self.x_design@, t.beta@)
        &&& t.mu@ == t.eta@
        &&& self.deviances::<F>(s_total, t)
        &&& t.valid == (forall|i: int| 0 <= i < t.eta@.len() ==> (#[trigger] t.eta@[i]).finite())
    }

    /// The point that the iterations start from: zero coefficients, and the
    /// given linear predictor or the middle of each observation's category.
    pub open spec fn starts<F: Arithmetic>(
        &self,
        s_total: Seq<Seq<Double>>,
        alpha: Seq<Double>,
        r: int,
        t: Trial,
    ) -> bool {
        &&& t.beta@ == Seq::new(self.x_design.cols as nat, |j: int| zero())
        &&& t.eta@ == (match self.opts.eta_init {
            Some(e) => e@,
            None => Seq::new(
                self.y@.len(),
                |i: int| eta_start_of::<F>(alpha, category_of::<F>(self.y@[i], r), r),
            ),
        })
        &&& t.mu@ == t.eta@
        &&& self.deviances::<F>(s_total, t)
    }

    /// An iteration from a point. A step that stays unacceptable leads back to
    /// the old coefficients and the linear predictor that belongs to them.
    pub open spec fn steps_to<F: Arithmetic, S: LinearSolver>(
        &self,
        s_total: Seq<Seq<Double>>,
        alpha: Seq<Double>,
        r: int,
        first: bool,
        before: Trial,
        s: OcatStep<S>,
    ) -> bool {
        &&& ocat_pair::<F, O>(alpha, r, self.y@, before.eta@, self.prior(), s.w, s.z)
        &&& factored::<S>(self.system::<F>(s_total, s.w), Ok(s.factor))
        &&& solved::<S>(
            s.factor,
            mat_vec_of::<F>(
                weighted_xt_of::<F>(self.x_design@, self.x_design.cols as nat, s.w),
                s.z,
            ),
            s.proposed,
        )
        &&& halving_course::<F>(s.trials, s.proposed, before.beta@, before.pdev, first, s.accepted)
        &&& forall|k: int| 0 <= k < s.trials.len() ==> self.trial_of::<F>(s_total, #[trigger] s.trials[k])
        &&& self.trial_of::<F>(s_total, s.next)
        &&& if s.accepted {
            s.next == s.trials.last()
        } else {
            s.next.beta@ == before.beta@
        }
    }

    /// A course of iterations, none of them after the control stopped.
    pub open spec fn course<F: Arithmetic, S: LinearSolver>(
        &self,
        s_total: Seq<Seq<Double>>,
        alpha: Seq<Double>,
        r: int,
        start: Trial,
        steps: Seq<OcatStep<S>>,
    ) -> bool
        decreases steps.len(),
    {
        if steps.len() == 0 {
            self.starts::<F>(s_total, alpha, r, start)
        } else {
            &&& self.course::<F, S>(s_total, alpha, r, start, steps.drop_last())
            &&& !ocat_control::<F, S>(self.opts, start, steps.drop_last()).stopped
            &&& self.steps_to::<F, S>(
                s_total,
                alpha,
                r,
                steps.len() == 1,
                ocat_point::<S>(start, steps.drop_last()),
                steps.last(),
            )
        }
    }

    /// The cut points and the number of categories, as the loss answers.
    pub open spec fn cuts(&self, alpha: Vec<Double>, r: usize) -> bool {
        call_ensures(O::n_cats, (&self.loss,), r) && call_ensures(O::alpha, (&self.loss,), alpha)
    }

    /// The cut points fit the categories.
    pub open spec fn cuts_fit(alpha: Seq<Double>, r: int) -> bool {
        1 <= r < i64::MAX && alpha.len() == r + 1
    }

    /// The fit that a course of iterations ends in: its last point, with working
    /// pair and factor at that point.
    pub open spec fn fit_of<F: Arithmetic, S: LinearSolver>(
        &self,
        s_total: Seq<Seq<Double>>,
        alpha: Seq<Double>,
        r: int,
        start: Trial,
        steps: Seq<OcatStep<S>>,
        fit: GaussianInnerFit<S>,
    ) -> bool {
        let end = ocat_point::<S>(start, steps);
        let control = ocat_control::<F, S>(self.opts, start, steps);
        &&& self.course::<F, S>(s_total, alpha, r, start, steps)
        &&& control.stopped
        &&& fit.iterations == steps.len()
        &&& fit.converged == control.converged
        &&& fit.beta@ == end.beta@
        &&& fit.eta@ == end.eta@
        &&& fit.mu@ == end.eta@
        &&& fit.deviance == end.dev
        &&& fit.n == self.y@.len()
        &&& fit.p == self.x_design.cols
        &&& ocat_pair::<F, O>(
            alpha,
            r,
            self.y@,
            fit.eta@,
            self.prior(),
            fit.working_weights@,
            fit.working_response@,
        )
        &&& fit.rss == working_rss_of::<F>(fit.working_weights@, fit.working_response@, fit.eta@)
        &&& fit.a_weights@ == fit.working_weights@
        &&& factored::<S>(
            self.final_system::<F>(s_total, fit.working_weights@),
            Ok(fit.a_factor),
        )
        &&& fit.log_det_h_override is None
        &&& fit.tk_kkt_inputs is None
        &&& fit.dw_deta is None
        &&& fit.x_design is None
    }

    /// The matrix whose factor the fit carries: the penalised cross-product with a
    /// ridge relative to its own largest diagonal entry.
    pub open spec fn final_system<F: Arithmetic>(&self, s_total: Seq<Seq<Double>>, w: Seq<Double>) -> Seq<
        Seq<Double>,
    > {
        relative_ridge_of::<F>(
            add_penalty_of::<F>(self.cross::<F>(w), s_total, one()),
            ridge_scale_of::<F>(self.s_list.len()),
        )
    }

    /// The iterations led to a fit.
    pub open spec fn fitted<F: Arithmetic, S: LinearSolver>(
        &self,
        s_total: Seq<Seq<Double>>,
        fit: GaussianInnerFit<S>,
    ) -> bool {
        exists|alpha: Vec<Double>, r: usize, start: Trial, steps: Seq<OcatStep<S>>|
            self.cuts(alpha, r) && Self::cuts_fit(alpha@, r as int) && #[trigger] self.fit_of::<F, S>(
                s_total,
                alpha@,
                r as int,
                start,
                steps,
                fit,
            )
    }

    /// After a course of iterations the next one could not be made, or the last
    /// factor could not be had, for the reason that `e` gives.
    pub open spec fn stuck<F: Arithmetic, S: LinearSolver>(
        &self,
        s_total: Seq<Seq<Double>>,
        alpha: Seq<Double>,
        r: int,
        start: Trial,
        steps: Seq<OcatStep<S>>,
        w: Seq<Double>,
        z: Seq<Double>,
        e: GamrsError,
    ) -> bool {
        &&& self.course::<F, S>(s_total, alpha, r, start, steps)
        &&& ocat_pair::<F, O>(
            alpha,
            r,
            self.y@,
            ocat_point::<S>(start, steps).eta@,
            self.prior(),
            w,
            z,
        )
        &&& if ocat_control::<F, S>(self.opts, start, steps).stopped {
            factored::<S>(self.final_system::<F>(s_total, w), Err(e))
        } else {
            ||| factored::<S>(self.system::<F>(s_total, w), Err(e))
            ||| (e matches GamrsError::InvalidParameter(m) && m@ == "solution has the wrong length"@
                && self.bad_solution::<F, S>(s_total, w, z))
        }
    }

    /// The solver answered an iteration's system with a solution of the wrong
    /// length.
    pub open spec fn bad_solution<F: Arithmetic, S: LinearSolver>(
        &self,
        s_total: Seq<Seq<Double>>,
        w: Seq<Double>,
        z: Seq<Double>,
    ) -> bool {
        exists|f: S::Factorization, b: Seq<Double>|
            b.len() != self.x_design.cols && factored::<S>(self.system::<F>(s_total, w), Ok(f))
                && #[trigger] solved::<S>(
                f,
                mat_vec_of::<F>(weighted_xt_of::<F>(self.x_design@, self.x_design.cols as nat, w), z),
                b,
            )
    }

    /// Why there is no fit: the cut points do not fit the categories, or the
    /// iterations got stuck.
    pub open spec fn fit_error<F: Arithmetic, S: LinearSolver>(&self, s_total: Seq<Seq<Double>>, e: GamrsError) -> bool {
        exists|alpha: Vec<Double>, r: usize|
            #[trigger] self.cuts(alpha, r) && if Self::cuts_fit(alpha@, r as int) {
                exists|start: Trial, steps: Seq<OcatStep<S>>, w: Seq<Double>, z: Seq<Double>| #[trigger]
                    self.stuck::<F, S>(s_total, alpha@, r as int, start, steps, w, z, e)
            } else {
                e matches GamrsError::InvalidParameter(m) && m@
                    == "cut points do not match the categories"@
            }
    }

    fn try_beta<F: Arithmetic>(&self, prior: &Vec<Double>, s_total: &Matrix, beta: Vec<Double>) -> (t: Trial)
        requires
            lawful::<F>(),
            self.wf(),
            prior@ == self.prior(),
            beta@.len() == self.x_design.cols,
            s_total.square(beta@.len()),
        ensures
            t.beta == beta,
            self.trial_of::<F>(s_total@, t),
    {
        let eta: Vec<Double> = mat_vec::<F>(&self.x_design, &beta);
        let dev: Double = ocat_deviance::<F, O>(&self.loss, &self.y, &eta, prior);
        let pdev: Double = plus::<F>(dev, times::<F>(one(), beta_sbeta::<F>(s_total, &beta)));
        let valid: bool = all_finite(&eta);
        let mu: Vec<Double> = eta.clone();
        assert(mu@ =~= eta@);
        Trial { beta, eta, mu, dev, pdev, valid }
    }

    /// Halves a trial toward the old coefficients until it is acceptable or a
    /// hundred halvings are used up.
    fn halve_until_valid<F: Arithmetic>(
        &self,
        prior: &Vec<Double>,
        s_total: &Matrix,
        first: Vec<Double>,
        beta_old: &Vec<Double>,
        pdev_old: Double,
        iter_one: bool,
    ) -> (r: (Trial, bool, Ghost<Seq<Trial>>))
        requires
            lawful::<F>(),
            self.wf(),
            prior@ == self.prior(),
            first@.len() == self.x_design.cols,
            beta_old@.len() == self.x_design.cols,
            s_total.square(first@.len()),
        ensures
            halving_course::<F>(r.2@, first@, beta_old@, pdev_old, iter_one, r.1),
            forall|k: int| 0 <= k < r.2@.len() ==> self.trial_of::<F>(s_total@, #[trigger] r.2@[k]),
            r.0 == r.2@.last(),
    {
        let ghost begun = first@;
        let mut t: Trial = self.try_beta::<F>(prior, s_total, first);
        let mut h: Halving = Halving::begin(pdev_old, iter_one);
        let ghost mut trials: Seq<Trial> = seq![t];
        loop
            invariant
                lawful::<F>(),
                self.wf(),
                prior@ == self.prior(),
                begun == first@,
                begun.len() == self.x_design.cols,
                beta_old@.len() == self.x_design.cols,
                s_total.square(begun.len()),
                h.halvings <= 100,
                h == (Halving { pdev_old, iter_one, halvings: (trials.len() - 1) as usize }),
                trials.len() == h.halvings + 1,
                trials.last() == t,
                trials[0].beta@ == begun,
                forall|k: int| 0 <= k < trials.len() ==> self.trial_of::<F>(s_total@, #[trigger] trials[k]),
                forall|k: int|
                    0 <= k < trials.len() - 1 ==> #[trigger] verdict_at::<F>(
                        trials,
                        k,
                        pdev_old,
                        iter_one,
                    ) is Halve && trials[k + 1].beta@ == half_way_of::<F>(trials[k].beta@, beta_old@),
            decreases 101 - h.halvings,
        {
            assert(self.trial_of::<F>(s_total@, trials[trials.len() - 1]));
            let v: HalvingVerdict = h.judge::<F>(t.pdev, !t.valid);
            assert(v == verdict_at::<F>(trials, trials.len() - 1, pdev_old, iter_one));
            match v {
                HalvingVerdict::Accept => {
                    return (t, true, Ghost(trials));
                },
                HalvingVerdict::GiveUp => {
                    return (t, false, Ghost(trials));
                },
                HalvingVerdict::Halve => {
                    let nearer: Vec<Double> = half_way::<F>(&t.beta, beta_old);
                    t = self.try_beta::<F>(prior, s_total, nearer);
                    proof {
                        let grown = trials.push(t);
                        assert forall|k: int| 0 <= k < grown.len() - 1 implies #[trigger] verdict_at::<F>(
                            grown,
                            k,
                            pdev_old,
                            iter_one,
                        ) is Halve && grown[k + 1].beta@ == half_way_of::<F>(grown[k].beta@, beta_old@) by {
                            assert(grown[k] == trials[k]);
                            assert(verdict_at::<F>(trials, k, pdev_old, iter_one) is Halve);
                            if k < trials.len() - 1 {
                                assert(grown[k + 1] == trials[k + 1]);
                            }
                        }
                        trials = grown;
                    }
                },
            }
        }
    }

    /// The iterations from a given penalty. A step that stays unacceptable after
    /// halving is dropped and the iterations go on from the old coefficients.
    pub fn ocat_loop<F: Arithmetic, S: LinearSolver>(&self, s_total: &Matrix) -> (r: Result<
        GaussianInnerFit<S>,
        GamrsError,
    >)
        requires
            lawful::<F>(),
            self.wf(),
            s_total.square(self.x_design.cols as nat),
        ensures
            match r {
                Ok(fit) => self.fitted::<F, S>(s_total@, fit),
                Err(e) => self.fit_error::<F, S>(s_total@, e),
            },
    {
        let n: usize = self.y.len();
        let p: usize = self.x_design.cols;
        let r: usize = self.loss.n_cats();
        let alpha: Vec<Double> = self.loss.alpha();
        assert(self.cuts(alpha, r));
        if r < 1 || r as u64 >= 0x7fff_ffff_ffff_ffff || alpha.len() <= r || alpha.len() - 1 != r {
            return Err(
                GamrsError::InvalidParameter("cut points do not match the categories".to_owned()),
            );
        }
        assert(Self::cuts_fit(alpha@, r as int));
        let w0: Option<&Vec<Double>> = self.prior_weights.as_ref();
        let prior: Vec<Double> = prior_or_ones(w0, n);
        assert(prior@ == self.prior());
        let eta: Vec<Double> = match &self.opts.eta_init {
            Some(e0) => {
                let e: Vec<Double> = e0.clone();
                assert(e@ =~= e0@);
                e
            },
            None => {
                let start = |i: usize| -> (v: Double)
                    requires
                        i < self.y@.len(),
                    ensures
                        v == eta_start_of::<F>(
                            alpha@,
                            category_of::<F>(self.y@[i as int], r as int),
                            r as int,
                        ),
                    {
                        let k: usize = category::<F>(self.y[i], r);
                        eta_start::<F>(&alpha, k, r)
                    };
                let e: Vec<Double> = fill_vec(n, start);
                assert(e@ =~= Seq::new(
                    self.y@.len(),
                    |i: int|
                        eta_start_of::<F>(
                            alpha@,
                            category_of::<F>(self.y@[i], r as int),
                            r as int,
                        ),
                ));
                e
            },
        };
        let nought = |j: usize| -> (v: Double)
            ensures
                v == zero(),
            { zero() };
        let beta: Vec<Double> = fill_vec(p, nought);
        assert(beta@ =~= Seq::new(p as nat, |j: int| zero()));
        let dev: Double = ocat_deviance::<F, O>(&self.loss, &self.y, &eta, &prior);
        let pdev: Double = plus::<F>(dev, times::<F>(one(), beta_sbeta::<F>(s_total, &beta)));
        let mu: Vec<Double> = eta.clone();
        assert(mu@ =~= eta@);
        let mut cur: Trial = Trial { beta, eta, mu, dev, pdev, valid: true };
        let ghost start = cur;
        let scale: Double = ridge_scale::<F>(self.s_list.len());
        let mut run: OcatRun = OcatRun::begin(self.opts.max_iters, self.opts.dev_rel_tol);
        let ghost mut steps: Seq<OcatStep<S>> = Seq::empty();
        while !run.stopped
            invariant
                lawful::<F>(),
                self.wf(),
                n == self.y@.len(),
                p == self.x_design.cols,
                self.cuts(alpha, r),
                Self::cuts_fit(alpha@, r as int),
                s_total.square(p as nat),
                prior@ == self.prior(),
                prior@.len() == n,
                cur.eta@.len() == n,
                cur.beta@.len() == p,
                scale == ridge_scale_of::<F>(self.s_list.len()),
                run.wf(),
                run == ocat_control::<F, S>(self.opts, start, steps),
                cur == ocat_point::<S>(start, steps),
                self.course::<F, S>(s_total@, alpha@, r as int, start, steps),
                steps.len() == run.iters_used,
                run.max_iters == self.opts.max_iters,
            decreases self.opts.max_iters - run.iters_used,
        {
            let (w, z) = ocat_rows::<F, O>(&alpha, r, &self.y, &cur.eta, &prior);
            let xtw: Matrix = weighted_xt::<F>(&self.x_design, &w);
            let xtwx: Matrix = mat_mul::<F>(&xtw, &self.x_design);
            let xtwz: Vec<Double> = mat_vec::<F>(&xtw, &z);
            let ridge: Double = times::<F>(scale, max_diag(&xtwx));
            let penalised: Matrix = add_penalty::<F>(&xtwx, s_total, one());
            let a: Matrix = ridged::<F>(&penalised, ridge);
            assert(a@ == self.system::<F>(s_total@, w@));
            let factor: S::Factorization = match S::factorize(&a) {
                Ok(f) => f,
                Err(e) => {
                    assert(factored::<S>(a@, Err(e)));
                    assert(self.stuck::<F, S>(
                        s_total@,
                        alpha@,
                        r as int,
                        start,
                        steps,
                        w@,
                        z@,
                        e,
                    ));
                    return Err(e);
                },
            };
            assert(factored::<S>(a@, Ok(factor)));
            let b: Vec<Double> = S::solve(&factor, &xtwz);
            assert(solved::<S>(factor, xtwz@, b@));
            if b.len() != p {
                let e: GamrsError = GamrsError::InvalidParameter(
                    "solution has the wrong length".to_owned(),
                );
                assert(self.bad_solution::<F, S>(s_total@, w@, z@));
                assert(self.stuck::<F, S>(s_total@, alpha@, r as int, start, steps, w@, z@, e));
                return Err(e);
            }
            let ghost proposed = b@;
            let (t, accepted, trials) = self.halve_until_valid::<F>(
                &prior,
                s_total,
                b,
                &cur.beta,
                cur.pdev,
                run.iters_used == 0,
            );
            let change: Option<Double> = if accepted {
                Some(max_change::<F>(&t.beta, &cur.beta))
            } else {
                None
            };
            let next: Trial = if accepted {
                t
            } else {
                let same: Vec<Double> = cur.beta.clone();
                assert(same@ =~= cur.beta@);
                self.try_beta::<F>(&prior, s_total, same)
            };
            proof {
                let s = OcatStep::<S> {
                    w: w@,
                    z: z@,
                    factor,
                    proposed,
                    trials: trials@,
                    accepted,
                    next,
                };
                assert(steps.push(s).drop_last() =~= steps);
                assert(steps.push(s).last() == s);
                assert(self.trial_of::<F>(s_total@, trials@[trials@.len() - 1]));
                assert(self.steps_to::<F, S>(
                    s_total@,
                    alpha@,
                    r as int,
                    steps.len() == 0,
                    cur,
                    s,
                ));
                steps = steps.push(s);
            }
            run.advance(change);
            cur = next;
        }
        let (working_weights, working_response) = ocat_rows::<F, O>(
            &alpha,
            r,
            &self.y,
            &cur.eta,
            &prior,
        );
        let rss: Double = working_rss::<F>(&working_weights, &working_response, &cur.eta);
        let xtw: Matrix = weighted_xt::<F>(&self.x_design, &working_weights);
        let xtwx: Matrix = mat_mul::<F>(&xtw, &self.x_design);
        let penalised: Matrix = add_penalty::<F>(&xtwx, s_total, one());
        let a: Matrix = relative_ridge::<F>(&penalised, scale);
        assert(a@ == self.final_system::<F>(s_total@, working_weights@));
        let a_factor: S::Factorization = match S::factorize(&a) {
            Ok(f) => f,
            Err(e) => {
                assert(factored::<S>(a@, Err(e)));
                assert(self.stuck::<F, S>(
                    s_total@,
                    alpha@,
                    r as int,
                    start,
                    steps,
                    working_weights@,
                    working_response@,
                    e,
                ));
                return Err(e);
            },
        };
        assert(factored::<S>(a@, Ok(a_factor)));
        let mu: Vec<Double> = cur.eta.clone();
        assert(mu@ =~= cur.eta@);
        let a_weights: Vec<Double> = working_weights.clone();
        assert(a_weights@ =~= working_weights@);
        let fit: GaussianInnerFit<S> = GaussianInnerFit {
            beta: cur.beta,
            eta: cur.eta,
            mu,
            working_weights,
            working_response,
            deviance: cur.dev,
            rss,
            n,
            p,
            iterations: run.iters_used,
            converged: run.converged,
            a_factor,
            a_weights,
            log_det_h_override: None,
            tk_kkt_inputs: None,
            dw_deta: None,
            x_design: None,
        };
        assert(self.fit_of::<F, S>(s_total@, alpha@, r as int, start, steps, fit));
        Ok(fit)
    }

    /// The fit at log smoothing parameters `rho`.
    pub fn fit<F: Arithmetic, S: LinearSolver>(&self, rho: &Vec<Double>) -> (r: Result<
        GaussianInnerFit<S>,
        GamrsError,
    >)
        requires
            lawful::<F>(),
            self.wf(),
            rho@.len() == self.s_list@.len(),
        ensures
            match r {
                Ok(fit) => self.fitted::<F, S>(
                    combined_s_of::<F>(self.s_list@, rho@, self.x_design.cols as nat),
                    fit,
                ),
                Err(e) => self.fit_error::<F, S>(
                    combined_s_of::<F>(self.s_list@, rho@, self.x_design.cols as nat),
                    e,
                ),
            },
    {
        let s_total: Matrix = combined_s::<F>(&self.s_list, rho, self.x_design.cols);
        self.ocat_loop::<F, S>(&s_total)
    }
}

} // verus!
