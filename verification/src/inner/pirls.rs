//! Penalised iteratively reweighted least squares.

use vstd::prelude::*;

use crate::arith::{lawful, minus, over, plus, times, total, Arithmetic};
use crate::dense::{
    add_penalty, add_penalty_of, beta_sbeta, beta_sbeta_of, mat_mul, mat_mul_of, mat_vec,
    mat_vec_of, relative_ridge, relative_ridge_of, weighted_xt, weighted_xt_of,
};
use crate::double::{lit, one, zero, Double, E_M12, E_M3, E_M30, E_M300, E_M6, E_M9};
use crate::error::GamrsError;
use crate::inner::closed_form::{owned_weights_view, prior_or_ones, weights_or_ones};
use crate::inner::linalg::{
    factor_and_solve_with_ridge, factored, ridge_solved, solve_matrix, LinearSolver,
};
use crate::inner::pirls::curvature::{
    dw_deta_of, dw_deta_row, family_observed_score_weights, mean_step, no_observed_weights,
    observed_weights_of,
};
use crate::inner::{
    combined_s, combined_s_of, half_way, half_way_of, halving_course, penalties_fit, verdict_at,
    working_rss, working_rss_of, GaussianInnerFit, Halving, HalvingVerdict, Trial,
};
use crate::matrix::{fill_vec, Matrix};
use crate::traits::{Family, Link, Loss, VarianceFn};

pub mod curvature;

verus! {

/// Options of the iterations.
#[derive(Debug)]
pub struct PirlsOpts {
    /// Iteration limit.
    pub max_iters: usize,
    /// Relative change of the deviance below which the iterations converged.
    pub dev_rel_tol: Double,
    /// Halvings a caller may ask for.
    pub halving_steps: usize,
    /// Linear predictor to start from, in place of any other start.
    pub eta_init: Option<Vec<Double>>,
}

impl Default for PirlsOpts {
    fn default() -> (o: PirlsOpts)
        ensures
            o.max_iters == 50,
            o.dev_rel_tol == lit(E_M9),
            o.halving_steps == 10,
            o.eta_init is None,
    {
        PirlsOpts { max_iters: 50, dev_rel_tol: lit(E_M9), halving_steps: 10, eta_init: None }
    }
}

/// The family's functions at one mean.
#[derive(Clone, Copy, Debug, PartialEq, Eq, Structural)]
pub struct RowShape {
    /// Variance.
    pub variance: Double,
    /// First derivative of the variance.
    pub v1: Double,
    /// First derivative of the link.
    pub g1: Double,
    /// Second derivative of the link.
    pub g2: Double,
}

/// The variance, at least 1e-300.
pub open spec fn floored_variance(s: RowShape) -> Double {
    s.variance.max_spec(lit(E_M300))
}

/// The Fisher weight `1 / (V g'^2)`.
pub open spec fn fisher_weight_of<F: Arithmetic>(s: RowShape) -> Double {
    over::<F>(one(), times::<F>(times::<F>(floored_variance(s), s.g1), s.g1))
}

/// The ratio of observed to expected curvature: `1 + (y - mu)(V'/V + g''/g')`.
pub open spec fn alpha_of<F: Arithmetic>(y: Double, mu: Double, s: RowShape) -> Double {
    plus::<F>(
        one(),
        times::<F>(
            minus::<F>(y, mu),
            plus::<F>(over::<F>(s.v1, floored_variance(s)), over::<F>(s.g2, s.g1)),
        ),
    )
}

/// Working weight and response of one observation. Under Newton weights a row
/// whose curvature ratio is not positive and finite uses the Fisher weight.
pub open spec fn irls_row_of<F: Arithmetic>(
    newton: bool,
    y: Double,
    mu: Double,
    eta: Double,
    prior: Double,
    s: RowShape,
) -> (Double, Double) {
    let wf = fisher_weight_of::<F>(s);
    let c = minus::<F>(y, mu);
    let alpha = alpha_of::<F>(y, mu, s);
    if newton && zero().below(alpha) && alpha.finite() {
        (
            times::<F>(times::<F>(prior, wf), alpha),
            plus::<F>(eta, over::<F>(times::<F>(c, s.g1), alpha)),
        )
    } else {
        (times::<F>(prior, wf), plus::<F>(eta, times::<F>(c, s.g1)))
    }
}

/// Working weight and response of one observation.
pub fn irls_row<F: Arithmetic>(
    newton: bool,
    y: Double,
    mu: Double,
    eta: Double,
    prior: Double,
    s: RowShape,
) -> (r: (Double, Double))
    requires
        lawful::<F>(),
    ensures
        r == irls_row_of::<F>(newton, y, mu, eta, prior, s),
{
    let var: Double = s.variance.max(lit(E_M300));
    let wf: Double = over::<F>(one(), times::<F>(times::<F>(var, s.g1), s.g1));
    let c: Double = minus::<F>(y, mu);
    if newton {
        let ratio: Double = plus::<F>(over::<F>(s.v1, var), over::<F>(s.g2, s.g1));
        let alpha: Double = plus::<F>(one(), times::<F>(c, ratio));
        if zero().lt(alpha) && alpha.is_finite() {
            return (
                times::<F>(times::<F>(prior, wf), alpha),
                plus::<F>(eta, over::<F>(times::<F>(c, s.g1), alpha)),
            );
        }
    }
    (times::<F>(prior, wf), plus::<F>(eta, times::<F>(c, s.g1)))
}

/// A row's weight never comes from a curvature ratio that is not positive: under
/// Newton weights it is then the Fisher weight.
pub proof fn law_newton_row_falls_back<F: Arithmetic>(
    y: Double,
    mu: Double,
    eta: Double,
    prior: Double,
    s: RowShape,
)
    requires
        !zero().below(alpha_of::<F>(y, mu, s)) || !alpha_of::<F>(y, mu, s).finite(),
    ensures
        irls_row_of::<F>(true, y, mu, eta, prior, s) == irls_row_of::<F>(false, y, mu, eta, prior, s),
{
}

/// The family's answers at a mean.
pub open spec fn row_read<K: Link, V: VarianceFn>(link: K, variance: V, mu: Double, s: RowShape) -> bool {
    &&& call_ensures(V::variance, (&variance, mu), s.variance)
    &&& call_ensures(V::d_variance, (&variance, mu), s.v1)
    &&& call_ensures(K::d_link_dmu, (&link, mu), s.g1)
    &&& call_ensures(K::d2_link_dmu, (&link, mu), s.g2)
}

/// Reads the family's functions at a mean.
pub fn read_row<K: Link, V: VarianceFn>(link: &K, variance: &V, mu: Double) -> (s: RowShape)
    ensures
        row_read::<K, V>(*link, *variance, mu, s),
{
    RowShape {
        variance: variance.variance(mu),
        v1: variance.d_variance(mu),
        g1: link.d_link_dmu(mu),
        g2: link.d2_link_dmu(mu),
    }
}

/// `(w, z)` is the working weight and response of one observation for some
/// answers of link and variance.
pub open spec fn row_from<F: Arithmetic, K: Link, V: VarianceFn>(
    link: K,
    variance: V,
    newton: bool,
    obs: (Double, Double, Double, Double),
    w: Double,
    z: Double,
) -> bool {
    exists|s: RowShape| #[trigger]
        row_read::<K, V>(link, variance, obs.1, s) && (w, z) == irls_row_of::<F>(
            newton,
            obs.0,
            obs.1,
            obs.2,
            obs.3,
            s,
        )
}

/// `(w, z)` are working weights and response at `(mu, eta)` as link and variance
/// give them.
pub open spec fn standard_pair<F: Arithmetic, K: Link, V: VarianceFn>(
    link: K,
    variance: V,
    newton: bool,
    y: Seq<Double>,
    mu: Seq<Double>,
    eta: Seq<Double>,
    prior: Seq<Double>,
    w: Seq<Double>,
    z: Seq<Double>,
) -> bool {
    &&& w.len() == y.len()
    &&& z.len() == y.len()
    &&& forall|i: int|
        0 <= i < y.len() ==> row_from::<F, K, V>(
            link,
            variance,
            newton,
            (y[i], mu[i], eta[i], prior[i]),
            #[trigger] w[i],
            z[i],
        )
}

/// `(w, z)` are working weights and response at `(mu, eta)`: the family's own,
/// where it has them, else those of link and variance.
pub open spec fn working_pair<F: Arithmetic, L: Loss, K: Link, V: VarianceFn>(
    family: Family<L, K, V>,
    newton: bool,
    y: Vec<Double>,
    mu: Vec<Double>,
    eta: Vec<Double>,
    prior: Vec<Double>,
    w: Vec<Double>,
    z: Vec<Double>,
) -> bool {
    ||| call_ensures(L::irls_observed_pair, (&family.loss, &y, &mu, &eta, &prior), Some((w, z)))
    ||| call_ensures(L::irls_observed_pair, (&family.loss, &y, &mu, &eta, &prior), None)
        && standard_pair::<F, K, V>(
        family.link,
        family.variance,
        newton,
        y@,
        mu@,
        eta@,
        prior@,
        w@,
        z@,
    )
}

/// An answer of the wrong length.
fn wrong_length(what: &str) -> (e: GamrsError)
    ensures
        e matches GamrsError::InvalidParameter(m) && m@ == what@ + " has the wrong length"@,
{
    GamrsError::InvalidParameter(crate::text::join2(what, " has the wrong length"))
}

/// Builds working weights and response at `(mu, eta)`. Fails only where the
/// family answers with vectors of the wrong length.
pub fn build_pair<F: Arithmetic, L: Loss, K: Link, V: VarianceFn>(
    family: &Family<L, K, V>,
    newton: bool,
    y: &Vec<Double>,
    mu: &Vec<Double>,
    eta: &Vec<Double>,
    prior: &Vec<Double>,
) -> (r: Result<(Vec<Double>, Vec<Double>), GamrsError>)
    requires
        lawful::<F>(),
        mu@.len() == y@.len(),
        eta@.len() == y@.len(),
        prior@.len() == y@.len(),
    ensures
        match r {
            Ok((w, z)) => w@.len() == y@.len() && z@.len() == y@.len() && working_pair::<F, L, K, V>(
                *family,
                newton,
                *y,
                *mu,
                *eta,
                *prior,
                w,
                z,
            ),
            Err(_) => exists|w: Vec<Double>, z: Vec<Double>|
                (w@.len() != y@.len() || z@.len() != y@.len()) && #[trigger] call_ensures(
                    L::irls_observed_pair,
                    (&family.loss, y, mu, eta, prior),
                    Some((w, z)),
                ),
        },
{
    match family.loss.irls_observed_pair(y, mu, eta, prior) {
        Some((w, z)) => {
            if w.len() != y.len() || z.len() != y.len() {
                return Err(wrong_length("observed working pair"));
            }
            Ok((w, z))
        },
        None => {
            let pair: (Vec<Double>, Vec<Double>) = standard_rows::<F, K, V>(
                &family.link,
                &family.variance,
                newton,
                y,
                mu,
                eta,
                prior,
            );
            Ok(pair)
        },
    }
}

/// Working weights and response from link and variance.
pub fn standard_rows<F: Arithmetic, K: Link, V: VarianceFn>(
    link: &K,
    variance: &V,
    newton: bool,
    y: &Vec<Double>,
    mu: &Vec<Double>,
    eta: &Vec<Double>,
    prior: &Vec<Double>,
) -> (r: (Vec<Double>, Vec<Double>))
    requires
        lawful::<F>(),
        mu@.len() == y@.len(),
        eta@.len() == y@.len(),
        prior@.len() == y@.len(),
    ensures
        standard_pair::<F, K, V>(*link, *variance, newton, y@, mu@, eta@, prior@, r.0@, r.1@),
{
    let mut w: Vec<Double> = Vec::new();
    let mut z: Vec<Double> = Vec::new();
    for i in 0..y.len()
        invariant
            lawful::<F>(),
            mu@.len() == y@.len(),
            eta@.len() == y@.len(),
            prior@.len() == y@.len(),
            w@.len() == i,
            z@.len() == i,
            forall|k: int|
                0 <= k < i ==> row_from::<F, K, V>(
                    *link,
                    *variance,
                    newton,
                    (y@[k], mu@[k], eta@[k], prior@[k]),
                    #[trigger] w@[k],
                    z@[k],
                ),
    {
        let s: RowShape = read_row::<K, V>(link, variance, mu[i]);
        let (wi, zi) = irls_row::<F>(newton, y[i], mu[i], eta[i], prior[i], s);
        let ghost obs = (y@[i as int], mu@[i as int], eta@[i as int], prior@[i as int]);
        assert(row_read::<K, V>(*link, *variance, obs.1, s));
        assert((wi, zi) == irls_row_of::<F>(newton, obs.0, obs.1, obs.2, obs.3, s));
        assert(row_from::<F, K, V>(*link, *variance, newton, obs, wi, zi));
        w.push(wi);
        z.push(zi);
    }
    (w, z)
}

/// Each mean is the inverse link of its linear predictor.
pub open spec fn means_of<K: Link>(link: K, eta: Seq<Double>, mu: Seq<Double>) -> bool {
    mu.len() == eta.len() && forall|i: int|
        0 <= i < eta.len() ==> call_ensures(K::inverse_link, (&link, eta[i]), #[trigger] mu[i])
}

/// The means of a linear predictor.
pub fn means<K: Link>(link: &K, eta: &Vec<Double>) -> (mu: Vec<Double>)
    ensures
        means_of::<K>(*link, eta@, mu@),
{
    let mut mu: Vec<Double> = Vec::new();
    for i in 0..eta.len()
        invariant
            mu@.len() == i,
            forall|k: int| 0 <= k < i ==> call_ensures(K::inverse_link, (link, eta@[k]), #[trigger] mu@[k]),
    {
        mu.push(link.inverse_link(eta[i]));
    }
    mu
}

/// `d` is `sum_i prior_i D(y_i, mu_i)` for some answers of the loss.
pub open spec fn deviance_of<F: Arithmetic, L: Loss>(
    loss: L,
    y: Seq<Double>,
    mu: Seq<Double>,
    prior: Seq<Double>,
    d: Double,
) -> bool {
    exists|dev: Seq<Double>|
        #![trigger dev.len()]
        dev.len() == y.len() && (forall|i: int|
            0 <= i < y.len() ==> call_ensures(L::deviance_per_obs, (&loss, y[i], mu[i]), #[trigger] dev[i]))
            && d == total::<F>(|i: int| times::<F>(prior[i], dev[i]), y.len())
}

/// The deviance weighted by the prior weights.
pub fn compute_deviance<F: Arithmetic, L: Loss>(
    loss: &L,
    y: &Vec<Double>,
    mu: &Vec<Double>,
    prior: &Vec<Double>,
) -> (d: Double)
    requires
        lawful::<F>(),
        mu@.len() == y@.len(),
        prior@.len() == y@.len(),
    ensures
        deviance_of::<F, L>(*loss, y@, mu@, prior@, d),
{
    let mut dev: Vec<Double> = Vec::new();
    for i in 0..y.len()
        invariant
            mu@.len() == y@.len(),
            dev@.len() == i,
            forall|k: int|
                0 <= k < i ==> call_ensures(L::deviance_per_obs, (loss, y@[k], mu@[k]), #[trigger] dev@[k]),
    {
        dev.push(loss.deviance_per_obs(y[i], mu[i]));
    }
    let mut acc: Double = zero();
    for i in 0..y.len()
        invariant
            lawful::<F>(),
            prior@.len() == y@.len(),
            dev@.len() == y@.len(),
            acc == total::<F>(|i: int| times::<F>(prior@[i], dev@[i]), i as nat),
    {
        acc = plus::<F>(acc, times::<F>(prior[i], dev[i]));
    }
    assert(dev@.len() == y@.len());
    acc
}

/// The loss answers the observation with a deviance that is, or is not, finite.
pub open spec fn dev_answered<L: Loss>(loss: L, y: Double, mu: Double, finite: bool) -> bool {
    exists|d: Double| d.finite() == finite && #[trigger] call_ensures(L::deviance_per_obs, (&loss, y, mu), d)
}

/// Linear predictor, mean and deviance of observation `i` are finite.
pub open spec fn row_valid<L: Loss>(loss: L, y: Seq<Double>, eta: Seq<Double>, mu: Seq<Double>, i: int) -> bool {
    eta[i].finite() && mu[i].finite() && dev_answered::<L>(loss, y[i], mu[i], true)
}

/// Linear predictor, mean or deviance of observation `i` is not finite.
pub open spec fn row_invalid<L: Loss>(loss: L, y: Seq<Double>, eta: Seq<Double>, mu: Seq<Double>, i: int) -> bool {
    !eta[i].finite() || !mu[i].finite() || dev_answered::<L>(loss, y[i], mu[i], false)
}

/// Whether every linear predictor, mean and deviance is finite.
pub fn eta_mu_valid<L: Loss>(loss: &L, y: &Vec<Double>, eta: &Vec<Double>, mu: &Vec<Double>) -> (b: bool)
    requires
        eta@.len() == y@.len(),
        mu@.len() == y@.len(),
    ensures
        b ==> forall|i: int| 0 <= i < y@.len() ==> #[trigger] row_valid::<L>(*loss, y@, eta@, mu@, i),
        !b ==> exists|i: int| 0 <= i < y@.len() && #[trigger] row_invalid::<L>(*loss, y@, eta@, mu@, i),
{
    for i in 0..y.len()
        invariant
            eta@.len() == y@.len(),
            mu@.len() == y@.len(),
            forall|k: int| 0 <= k < i ==> #[trigger] row_valid::<L>(*loss, y@, eta@, mu@, k),
    {
        if !eta[i].is_finite() || !mu[i].is_finite() {
            assert(row_invalid::<L>(*loss, y@, eta@, mu@, i as int));
            return false;
        }
        let d: Double = loss.deviance_per_obs(y[i], mu[i]);
        if !d.is_finite() {
            assert(dev_answered::<L>(*loss, y@[i as int], mu@[i as int], false));
            assert(row_invalid::<L>(*loss, y@, eta@, mu@, i as int));
            return false;
        }
        assert(dev_answered::<L>(*loss, y@[i as int], mu@[i as int], true));
        assert(row_valid::<L>(*loss, y@, eta@, mu@, i as int));
    }
    true
}

/// The relative change of the deviance: `|old - new| / (|old| + 1e-30)`.
pub open spec fn dev_change_of<F: Arithmetic>(dev: Double, dev_try: Double) -> Double {
    over::<F>(
        minus::<F>(dev, dev_try).abs_spec(),
        plus::<F>(dev.abs_spec(), lit(E_M30)),
    )
}

/// Control of the iterations: how many were done, and whether they converged.
#[derive(Clone, Copy, Debug, PartialEq, Eq, Structural)]
pub struct PirlsRun {
    /// Iteration limit.
    pub max_iters: usize,
    /// Tolerance on the relative change of the deviance.
    pub dev_rel_tol: Double,
    /// Iterations done.
    pub iters_used: usize,
    /// Converged.
    pub converged: bool,
    /// No further iteration.
    pub stopped: bool,
}

impl PirlsRun {
    /// Within the limit, and stopped where the limit is reached.
    pub open spec fn wf(self) -> bool {
        &&& self.iters_used <= self.max_iters
        &&& !self.stopped ==> self.iters_used < self.max_iters && !self.converged
        &&& self.converged ==> self.stopped && self.iters_used >= 2
    }

    /// Before the first iteration.
    pub fn begin(max_iters: usize, dev_rel_tol: Double) -> (r: PirlsRun)
        ensures
            r == (PirlsRun {
                max_iters,
                dev_rel_tol,
                iters_used: 0,
                converged: false,
                stopped: max_iters == 0,
            }),
            r.wf(),
    {
        PirlsRun { max_iters, dev_rel_tol, iters_used: 0, converged: false, stopped: max_iters == 0 }
    }

    /// After an iteration that found an acceptable step, or did not. The first
    /// iteration never converges; a failed step ends the iterations.
    pub open spec fn after<F: Arithmetic>(self, accepted: bool, dev: Double, dev_try: Double) -> PirlsRun {
        let converged = accepted && self.iters_used > 0 && dev_change_of::<F>(dev, dev_try).below(
            self.dev_rel_tol,
        );
        PirlsRun {
            iters_used: (self.iters_used + 1) as usize,
            converged,
            stopped: !accepted || converged || self.iters_used + 1 >= self.max_iters,
            ..self
        }
    }

    /// Records an iteration.
    pub fn advance<F: Arithmetic>(&mut self, accepted: bool, dev: Double, dev_try: Double)
        requires
            lawful::<F>(),
            old(self).wf(),
            !old(self).stopped,
        ensures
            *final(self) == old(self).after::<F>(accepted, dev, dev_try),
            final(self).wf(),
    {
        let change: Double = over::<F>(
            minus::<F>(dev, dev_try).abs(),
            plus::<F>(dev.abs(), lit(E_M30)),
        );
        let converged: bool = accepted && self.iters_used > 0 && change.lt(self.dev_rel_tol);
        self.iters_used = self.iters_used + 1;
        self.converged = converged;
        self.stopped = !accepted || converged || self.iters_used >= self.max_iters;
    }
}

/// The iterations converge only on an accepted step after the first, and never
/// past their limit.
pub proof fn law_pirls_convergence<F: Arithmetic>(r: PirlsRun, accepted: bool, dev: Double, dev_try: Double)
    requires
        r.wf(),
        !r.stopped,
    ensures
        r.after::<F>(accepted, dev, dev_try).wf(),
        r.after::<F>(accepted, dev, dev_try).converged ==> accepted && r.iters_used >= 1,
        !accepted ==> r.after::<F>(accepted, dev, dev_try).stopped,
        r.after::<F>(accepted, dev, dev_try).iters_used <= r.max_iters,
{
}

/// The control before the first iteration.
pub open spec fn pirls_start(max_iters: usize, tol: Double) -> PirlsRun {
    PirlsRun {
        max_iters,
        dev_rel_tol: tol,
        iters_used: 0,
        converged: false,
        stopped: max_iters == 0,
    }
}

/// One iteration: the working pair, the factor, the proposed coefficients and the
/// trials of its halving.
pub struct PirlsStep<S: LinearSolver> {
    /// Working weights.
    pub w: Vec<Double>,
    /// Working response.
    pub z: Vec<Double>,
    /// Factor of the penalised cross-product.
    pub factor: S::Factorization,
    /// Proposed coefficients.
    pub proposed: Seq<Double>,
    /// Trials of the halving.
    pub trials: Seq<Trial>,
    /// Whether the last trial was accepted.
    pub accepted: bool,
}

/// The point after some iterations: the last accepted trial.
pub open spec fn pirls_point<S: LinearSolver>(start: Trial, steps: Seq<PirlsStep<S>>) -> Trial
    decreases steps.len(),
{
    if steps.len() == 0 {
        start
    } else if steps.last().accepted {
        steps.last().trials.last()
    } else {
        pirls_point::<S>(start, steps.drop_last())
    }
}

/// The factor of the last accepted iteration.
pub open spec fn pirls_factor<S: LinearSolver>(steps: Seq<PirlsStep<S>>) -> Option<S::Factorization>
    decreases steps.len(),
{
    if steps.len() == 0 {
        None
    } else if steps.last().accepted {
        Some(steps.last().factor)
    } else {
        pirls_factor::<S>(steps.drop_last())
    }
}

/// The control after some iterations.
pub open spec fn pirls_control<F: Arithmetic, S: LinearSolver>(
    opts: PirlsOpts,
    start: Trial,
    steps: Seq<PirlsStep<S>>,
) -> PirlsRun
    decreases steps.len(),
{
    if steps.len() == 0 {
        pirls_start(opts.max_iters, opts.dev_rel_tol)
    } else {
        pirls_control::<F, S>(opts, start, steps.drop_last()).after::<F>(
            steps.last().accepted,
            pirls_point::<S>(start, steps.drop_last()).dev,
            steps.last().trials.last().dev,
        )
    }
}

/// `d` is the derivative of one observation's Fisher weight for some answers of
/// the family.
pub open spec fn dw_from<F: Arithmetic, K: Link, V: VarianceFn>(
    link: K,
    variance: V,
    mu: Double,
    prior: Double,
    d: Double,
) -> bool {
    exists|g1: Double, up: (Double, Double), down: (Double, Double)|
        #![trigger dw_deta_of::<F>(mu, prior, g1, up, down)]
        call_ensures(K::d_link_dmu, (&link, mu), g1) && call_ensures(
            V::variance,
            (&variance, plus::<F>(mu, mean_step::<F>(mu))),
            up.0,
        ) && call_ensures(K::d_link_dmu, (&link, plus::<F>(mu, mean_step::<F>(mu))), up.1) && call_ensures(
            V::variance,
            (&variance, minus::<F>(mu, mean_step::<F>(mu))),
            down.0,
        ) && call_ensures(K::d_link_dmu, (&link, minus::<F>(mu, mean_step::<F>(mu))), down.1) && d
            == dw_deta_of::<F>(mu, prior, g1, up, down)
}

/// Derivatives of the Fisher weights along the linear predictor.
pub fn weight_slopes<F: Arithmetic, K: Link, V: VarianceFn>(
    link: &K,
    variance: &V,
    mu: &Vec<Double>,
    prior: &Vec<Double>,
) -> (r: Vec<Double>)
    requires
        lawful::<F>(),
        prior@.len() == mu@.len(),
    ensures
        r@.len() == mu@.len(),
        forall|i: int|
            0 <= i < mu@.len() ==> dw_from::<F, K, V>(*link, *variance, mu@[i], prior@[i], #[trigger] r@[i]),
{
    let mut r: Vec<Double> = Vec::new();
    for i in 0..mu.len()
        invariant
            lawful::<F>(),
            prior@.len() == mu@.len(),
            r@.len() == i,
            forall|k: int|
                0 <= k < i ==> dw_from::<F, K, V>(
                    *link,
                    *variance,
                    mu@[k],
                    prior@[k],
                    #[trigger] r@[k],
                ),
    {
        let m: Double = mu[i];
        let h: Double = times::<F>(lit(E_M6), m.abs().max(lit(E_M3)));
        let g1: Double = link.d_link_dmu(m);
        let above: Double = plus::<F>(m, h);
        let below_it: Double = minus::<F>(m, h);
        let up: (Double, Double) = (variance.variance(above), link.d_link_dmu(above));
        let down: (Double, Double) = (variance.variance(below_it), link.d_link_dmu(below_it));
        let d: Double = dw_deta_row::<F>(m, prior[i], g1, up, down);
        assert(dw_from::<F, K, V>(*link, *variance, mu@[i as int], prior@[i as int], d));
        r.push(d);
    }
    r
}

/// Penalised iteratively reweighted least squares for a family.
pub struct PirlsInner<L: Loss, K: Link, V: VarianceFn> {
    /// Design matrix.
    pub x_design: Matrix,
    /// Response.
    pub y: Vec<Double>,
    /// Prior weights.
    pub prior_weights: Option<Vec<Double>>,
    /// One penalty per smooth term.
    pub s_list: Vec<Matrix>,
    /// Family.
    pub family: Family<L, K, V>,
    /// Options.
    pub opts: PirlsOpts,
    /// Whether the score uses the family's observed curvature, where it has one.
    pub observed_on: bool,
}

/// An error that says that an answer has the wrong length.
pub open spec fn length_error(what: Seq<char>, e: GamrsError) -> bool {
    e matches GamrsError::InvalidParameter(m) && m@ == what + " has the wrong length"@
}

/// `eta` is the linear predictor of the mean that the loss starts from.
pub open spec fn own_start<L: Loss, K: Link>(loss: L, link: K, y: Vec<Double>, eta: Seq<Double>) -> bool {
    eta.len() == y@.len() && exists|m: Vec<Double>| #[trigger]
        call_ensures(L::initial_mu, (&loss, &y), m) && m@.len() == y@.len() && forall|i: int|
            0 <= i < y@.len() ==> call_ensures(K::link, (&link, m@[i]), #[trigger] eta[i])
}

/// The linear predictor of a mean to start from.
fn start_eta<L: Loss, K: Link>(loss: &L, link: &K, y: &Vec<Double>) -> (r: Result<Vec<Double>, GamrsError>)
    ensures
        match r {
            Ok(eta) => own_start::<L, K>(*loss, *link, *y, eta@),
            Err(e) => length_error("starting mean"@, e) && exists|m: Vec<Double>|
                m@.len() != y@.len() && #[trigger] call_ensures(L::initial_mu, (loss, y), m),
        },
{
    let m: Vec<Double> = loss.initial_mu(y);
    if m.len() != y.len() {
        return Err(wrong_length("starting mean"));
    }
    let mut eta: Vec<Double> = Vec::new();
    for i in 0..m.len()
        invariant
            eta@.len() == i,
            forall|k: int| 0 <= k < i ==> call_ensures(K::link, (link, m@[k]), #[trigger] eta@[k]),
    {
        eta.push(link.link(m[i]));
    }
    Ok(eta)
}

/// A vector that holds the prior weights.
pub open spec fn is_prior(v: Vec<Double>, prior: Seq<Double>) -> bool {
    v@ == prior
}

impl<L: Loss, K: Link, V: VarianceFn> PirlsInner<L, K, V> {
    /// The shapes agree.
    pub open spec fn wf(&self) -> bool {
        &&& self.x_design.shape(self.y@.len(), self.x_design.cols as nat)
        &&& (self.prior_weights matches Some(v) ==> v@.len() == self.y@.len())
        &&& penalties_fit(self.s_list@, self.x_design.cols as nat)
        &&& (self.opts.eta_init matches Some(v) ==> v@.len() == self.y@.len())
    }

    /// The prior weights, or ones.
    pub open spec fn prior(&self) -> Seq<Double> {
        weights_or_ones(owned_weights_view(self.prior_weights), self.y@.len())
    }

    /// The penalised cross-product at weights `w`.
    pub open spec fn system<F: Arithmetic>(&self, s_total: Seq<Seq<Double>>, w: Seq<Double>) -> Seq<Seq<Double>> {
        let p = self.x_design.cols as nat;
        add_penalty_of::<F>(
            mat_mul_of::<F>(weighted_xt_of::<F>(self.x_design@, p, w), self.x_design@, p),
            s_total,
            one(),
        )
    }

    /// `X' W z`.
    pub open spec fn right_hand<F: Arithmetic>(&self, w: Seq<Double>, z: Seq<Double>) -> Seq<Double> {
        mat_vec_of::<F>(weighted_xt_of::<F>(self.x_design@, self.x_design.cols as nat, w), z)
    }

    /// Mean and deviances of a trial, as the family answers.
    pub open spec fn deviances<F: Arithmetic>(&self, s_total: Seq<Seq<Double>>, t: Trial) -> bool {
        &&& means_of::<K>(self.family.link, t.eta@, t.mu@)
        &&& deviance_of::<F, L>(self.family.loss, self.y@, t.mu@, self.prior(), t.dev)
        &&& t.pdev == plus::<F>(t.dev, times::<F>(one(), beta_sbeta_of::<F>(s_total, t.beta@)))
    }

    /// A trial belongs to its coefficients, and is valid if everything in it is
    /// finite.
    pub open spec fn trial_of<F: Arithmetic>(&self, s_total: Seq<Seq<Double>>, t: Trial) -> bool {
        &&& t.beta@.len() == self.x_design.cols
        &&& t.eta@ == mat_vec_of::<F>(self.x_design@, t.beta@)
        &&& self.deviances::<F>(s_total, t)
        &&& if t.valid {
            forall|i: int|
                0 <= i < self.y@.len() ==> #[trigger] row_valid::<L>(
                    self.family.loss,
                    self.y@,
                    t.eta@,
                    t.mu@,
                    i,
                )
        } else {
            exists|i: int|
                0 <= i < self.y@.len() && #[trigger] row_invalid::<L>(
                    self.family.loss,
                    self.y@,
                    t.eta@,
                    t.mu@,
                    i,
                )
        }
    }

    /// The linear predictor that the iterations start from: the one in the
    /// options, else that of the warm coefficients, else the family's own.
    pub open spec fn start_predictor<F: Arithmetic>(&self, beta_warm: Option<&Vec<Double>>, eta: Seq<Double>) -> bool {
        match self.opts.eta_init {
            Some(e) => eta == e@,
            None => match beta_warm {
                Some(b) => eta == mat_vec_of::<F>(self.x_design@, b@),
                None => own_start::<L, K>(self.family.loss, self.family.link, self.y, eta),
            },
        }
    }

    /// The point that the iterations start from. Its coefficients are zero,
    /// whatever its linear predictor is.
    pub open spec fn starts<F: Arithmetic>(
        &self,
        s_total: Seq<Seq<Double>>,
        beta_warm: Option<&Vec<Double>>,
        t: Trial,
    ) -> bool {
        &&& t.beta@ == Seq::new(self.x_design.cols as nat, |j: int| zero())
        &&& self.start_predictor::<F>(beta_warm, t.eta@)
        &&& self.deviances::<F>(s_total, t)
    }

    /// `(w, z)` is the working pair at a point.
    pub open spec fn pair_at<F: Arithmetic>(&self, newton: bool, t: Trial, w: Vec<Double>, z: Vec<Double>) -> bool {
        &&& w@.len() == self.y@.len()
        &&& z@.len() == self.y@.len()
        &&& exists|prior: Vec<Double>|
            prior@ == self.prior() && #[trigger] working_pair::<F, L, K, V>(
                self.family,
                newton,
                self.y,
                t.mu,
                t.eta,
                prior,
                w,
                z,
            )
    }

    /// The family answered a point with a working pair of the wrong length.
    pub open spec fn bad_pair(&self, t: Trial) -> bool {
        exists|prior: Vec<Double>, w: Vec<Double>, z: Vec<Double>|
            prior@ == self.prior() && (w@.len() != self.y@.len() || z@.len() != self.y@.len())
                && #[trigger] call_ensures(
                L::irls_observed_pair,
                (&self.family.loss, &self.y, &t.mu, &t.eta, &prior),
                Some((w, z)),
            )
    }

    /// An iteration from a point.
    pub open spec fn steps_to<F: Arithmetic, S: LinearSolver>(
        &self,
        s_total: Seq<Seq<Double>>,
        newton: bool,
        first: bool,
        before: Trial,
        s: PirlsStep<S>,
    ) -> bool {
        &&& self.pair_at::<F>(newton, before, s.w, s.z)
        &&& factored::<S>(self.system::<F>(s_total, s.w@), Ok(s.factor))
        &&& ridge_solved::<F, S>(
            self.system::<F>(s_total, s.w@),
            self.right_hand::<F>(s.w@, s.z@),
            s.proposed,
        )
        &&& halving_course::<F>(s.trials, s.proposed, before.beta@, before.pdev, first, s.accepted)
        &&& forall|k: int| 0 <= k < s.trials.len() ==> self.trial_of::<F>(s_total, #[trigger] s.trials[k])
    }

    /// A course of iterations, none of them after the control stopped.
    pub open spec fn course<F: Arithmetic, S: LinearSolver>(
        &self,
        s_total: Seq<Seq<Double>>,
        beta_warm: Option<&Vec<Double>>,
        newton: bool,
        start: Trial,
        steps: Seq<PirlsStep<S>>,
    ) -> bool
        decreases steps.len(),
    {
        if steps.len() == 0 {
            self.starts::<F>(s_total, beta_warm, start)
        } else {
            &&& self.course::<F, S>(s_total, beta_warm, newton, start, steps.drop_last())
            &&& !pirls_control::<F, S>(self.opts, start, steps.drop_last()).stopped
            &&& self.steps_to::<F, S>(
                s_total,
                newton,
                steps.len() == 1,
                pirls_point::<S>(start, steps.drop_last()),
                steps.last(),
            )
        }
    }

    /// The factor that the iterations leave behind: that of the last accepted
    /// one, or one at the prior weights, slightly ridged.
    pub open spec fn loop_factor<F: Arithmetic, S: LinearSolver>(
        &self,
        s_total: Seq<Seq<Double>>,
        steps: Seq<PirlsStep<S>>,
        r: Result<S::Factorization, GamrsError>,
    ) -> bool {
        match pirls_factor::<S>(steps) {
            Some(f) => r == Ok::<S::Factorization, GamrsError>(f),
            None => factored::<S>(
                relative_ridge_of::<F>(self.system::<F>(s_total, self.prior()), lit(E_M12)),
                r,
            ),
        }
    }

    /// The family's own curvature weights at a linear predictor, or that the
    /// switch is off or it has none.
    pub open spec fn score_weights(&self, eta: Vec<Double>, w: Option<Vec<Double>>) -> bool {
        exists|prior: Vec<Double>| #[trigger]
            is_prior(prior, self.prior()) && match w {
                Some(v) => self.observed_on && observed_weights_of::<L>(self.family.loss, self.y, eta, prior, v),
                None => !self.observed_on || no_observed_weights::<L>(self.family.loss, self.y, eta, prior),
            }
    }

    /// Factor and weights for the score: those of the family's own curvature
    /// weights where it has them and they can be factored, else what the
    /// iterations left behind.
    pub open spec fn score_factor<F: Arithmetic, S: LinearSolver>(
        &self,
        s_total: Seq<Seq<Double>>,
        steps: Seq<PirlsStep<S>>,
        fit: GaussianInnerFit<S>,
    ) -> bool {
        exists|w: Option<Vec<Double>>| #[trigger]
            self.score_weights(fit.eta, w) && match w {
                Some(v) => {
                    ||| fit.a_weights == v && factored::<S>(self.system::<F>(s_total, v@), Ok(fit.a_factor))
                    ||| fit.a_weights@ == fit.working_weights@ && self.loop_factor::<F, S>(
                        s_total,
                        steps,
                        Ok(fit.a_factor),
                    ) && exists|e: GamrsError| #[trigger] factored::<S>(self.system::<F>(s_total, v@), Err(e))
                },
                None => fit.a_weights@ == fit.working_weights@ && self.loop_factor::<F, S>(
                    s_total,
                    steps,
                    Ok(fit.a_factor),
                ),
            }
    }

    /// The fit that a course of iterations ends in: its last point, the working
    /// pair and weight slopes there, and the factor for the score.
    pub open spec fn fit_of<F: Arithmetic, S: LinearSolver>(
        &self,
        s_total: Seq<Seq<Double>>,
        beta_warm: Option<&Vec<Double>>,
        newton: bool,
        start: Trial,
        steps: Seq<PirlsStep<S>>,
        fit: GaussianInnerFit<S>,
    ) -> bool {
        let end = pirls_point::<S>(start, steps);
        let control = pirls_control::<F, S>(self.opts, start, steps);
        &&& self.course::<F, S>(s_total, beta_warm, newton, start, steps)
        &&& control.stopped
        &&& fit.iterations == steps.len()
        &&& fit.converged == control.converged
        &&& fit.beta == end.beta
        &&& fit.eta == end.eta
        &&& fit.mu == end.mu
        &&& fit.deviance == end.dev
        &&& fit.n == self.y@.len()
        &&& fit.p == self.x_design.cols
        &&& self.pair_at::<F>(newton, end, fit.working_weights, fit.working_response)
        &&& fit.rss == working_rss_of::<F>(fit.working_weights@, fit.working_response@, fit.eta@)
        &&& self.score_factor::<F, S>(s_total, steps, fit)
        &&& fit.log_det_h_override is None
        &&& fit.tk_kkt_inputs is None
        &&& fit.x_design is Some
        &&& fit.x_design->0@ == self.x_design@
        &&& fit.x_design->0.cols == self.x_design.cols
        &&& fit.dw_deta is Some
        &&& fit.dw_deta->0@.len() == self.y@.len()
        &&& forall|i: int|
            0 <= i < self.y@.len() ==> dw_from::<F, K, V>(
                self.family.link,
                self.family.variance,
                fit.mu@[i],
                self.prior()[i],
                #[trigger] fit.dw_deta->0@[i],
            )
    }

    /// The iterations led to a fit.
    pub open spec fn fitted<F: Arithmetic, S: LinearSolver>(
        &self,
        s_total: Seq<Seq<Double>>,
        beta_warm: Option<&Vec<Double>>,
        fit: GaussianInnerFit<S>,
    ) -> bool {
        exists|newton: bool, start: Trial, steps: Seq<PirlsStep<S>>|
            call_ensures(L::use_newton_irls, (&self.family.loss,), newton) && #[trigger] self.fit_of::<F, S>(
                s_total,
                beta_warm,
                newton,
                start,
                steps,
                fit,
            )
    }

    /// The next iteration could not be made, for the reason that `e` gives.
    pub open spec fn iteration_fails<F: Arithmetic, S: LinearSolver>(
        &self,
        s_total: Seq<Seq<Double>>,
        newton: bool,
        at: Trial,
        e: GamrsError,
    ) -> bool {
        ||| length_error("observed working pair"@, e) && self.bad_pair(at)
        ||| exists|w: Vec<Double>, z: Vec<Double>| #[trigger]
            self.pair_at::<F>(newton, at, w, z) && self.unsolved::<F, S>(s_total, w@, z@, e)
    }

    /// The system of an iteration could not be solved, for the reason that `e`
    /// gives.
    pub open spec fn unsolved<F: Arithmetic, S: LinearSolver>(
        &self,
        s_total: Seq<Seq<Double>>,
        w: Seq<Double>,
        z: Seq<Double>,
        e: GamrsError,
    ) -> bool {
        let a = self.system::<F>(s_total, w);
        ||| exists|inner: GamrsError|
            inner.labelled("PIRLS factor: "@, e) && (#[trigger] factored::<S>(a, Err(inner)) || factored::<S>(
                solve_matrix::<F>(a),
                Err(inner),
            ))
        ||| length_error("solution"@, e) && exists|b: Seq<Double>|
            b.len() != self.x_design.cols && #[trigger] ridge_solved::<F, S>(
                a,
                self.right_hand::<F>(w, z),
                b,
            )
    }

    /// After a course of iterations the next one could not be made, or what
    /// follows them could not be had.
    pub open spec fn stuck<F: Arithmetic, S: LinearSolver>(
        &self,
        s_total: Seq<Seq<Double>>,
        beta_warm: Option<&Vec<Double>>,
        newton: bool,
        start: Trial,
        steps: Seq<PirlsStep<S>>,
        e: GamrsError,
    ) -> bool {
        let end = pirls_point::<S>(start, steps);
        &&& self.course::<F, S>(s_total, beta_warm, newton, start, steps)
        &&& if pirls_control::<F, S>(self.opts, start, steps).stopped {
            ||| self.loop_factor::<F, S>(s_total, steps, Err(e))
            ||| length_error("observed working pair"@, e) && self.bad_pair(end)
        } else {
            self.iteration_fails::<F, S>(s_total, newton, end, e)
        }
    }

    /// The family has no start: neither the options nor the caller give one, and
    /// its own has the wrong length.
    pub open spec fn no_start(&self, beta_warm: Option<&Vec<Double>>, e: GamrsError) -> bool {
        &&& self.opts.eta_init is None
        &&& beta_warm is None
        &&& length_error("starting mean"@, e)
        &&& exists|m: Vec<Double>|
            m@.len() != self.y@.len() && #[trigger] call_ensures(
                L::initial_mu,
                (&self.family.loss, &self.y),
                m,
            )
    }

    /// Why there is no fit.
    pub open spec fn fit_error<F: Arithmetic, S: LinearSolver>(
        &self,
        s_total: Seq<Seq<Double>>,
        beta_warm: Option<&Vec<Double>>,
        e: GamrsError,
    ) -> bool {
        ||| self.no_start(beta_warm, e)
        ||| exists|newton: bool, start: Trial, steps: Seq<PirlsStep<S>>|
            call_ensures(L::use_newton_irls, (&self.family.loss,), newton) && #[trigger] self.stuck::<F, S>(
                s_total,
                beta_warm,
                newton,
                start,
                steps,
                e,
            )
    }

    fn try_beta<F: Arithmetic>(&self, prior: &Vec<Double>, s_total: &Matrix, beta: Vec<Double>) -> (t: Trial)
        requires
            lawful::<F>(),
            self.wf(),
            prior@ == self.prior(),
            beta@.len() == self.x_design.cols,
            s_total.square(beta@.len()),
        ensures
            t.beta == beta,
            self.trial_of::<F>(s_total@, t),
    {
        let eta: Vec<Double> = mat_vec::<F>(&self.x_design, &beta);
        let mu: Vec<Double> = means::<K>(&self.family.link, &eta);
        let dev: Double = compute_deviance::<F, L>(&self.family.loss, &self.y, &mu, prior);
        let pdev: Double = plus::<F>(dev, times::<F>(one(), beta_sbeta::<F>(s_total, &beta)));
        let valid: bool = eta_mu_valid::<L>(&self.family.loss, &self.y, &eta, &mu);
        let t: Trial = Trial { beta, eta, mu, dev, pdev, valid };
        assert(self.deviances::<F>(s_total@, t));
        t
    }

    /// Halves a trial toward the old coefficients until it is acceptable or a
    /// hundred halvings are used up.
    fn halve_until_valid<F: Arithmetic>(
        &self,
        prior: &Vec<Double>,
        s_total: &Matrix,
        first: Vec<Double>,
        beta_old: &Vec<Double>,
        pdev_old: Double,
        iter_one: bool,
    ) -> (r: (Trial, bool, Ghost<Seq<Trial>>))
        requires
            lawful::<F>(),
            self.wf(),
            prior@ == self.prior(),
            first@.len() == self.x_design.cols,
            beta_old@.len() == self.x_design.cols,
            s_total.square(first@.len()),
        ensures
            halving_course::<F>(r.2@, first@, beta_old@, pdev_old, iter_one, r.1),
            forall|k: int| 0 <= k < r.2@.len() ==> self.trial_of::<F>(s_total@, #[trigger] r.2@[k]),
            r.0 == r.2@.last(),
    {
        let ghost begun = first@;
        let mut t: Trial = self.try_beta::<F>(prior, s_total, first);
        let mut h: Halving = Halving::begin(pdev_old, iter_one);
        let ghost mut trials: Seq<Trial> = seq![t];
        loop
            invariant
                lawful::<F>(),
                self.wf(),
                prior@ == self.prior(),
                begun == first@,
                begun.len() == self.x_design.cols,
                beta_old@.len() == self.x_design.cols,
                s_total.square(begun.len()),
                h.halvings <= 100,
                h == (Halving { pdev_old, iter_one, halvings: (trials.len() - 1) as usize }),
                trials.len() == h.halvings + 1,
                trials.last() == t,
                trials[0].beta@ == begun,
                forall|k: int| 0 <= k < trials.len() ==> self.trial_of::<F>(s_total@, #[trigger] trials[k]),
                forall|k: int|
                    0 <= k < trials.len() - 1 ==> #[trigger] verdict_at::<F>(
                        trials,
                        k,
                        pdev_old,
                        iter_one,
                    ) is Halve && trials[k + 1].beta@ == half_way_of::<F>(trials[k].beta@, beta_old@),
            decreases 101 - h.halvings,
        {
            assert(self.trial_of::<F>(s_total@, trials[trials.len() - 1]));
            let v: HalvingVerdict = h.judge::<F>(t.pdev, !t.valid);
            assert(v == verdict_at::<F>(trials, trials.len() - 1, pdev_old, iter_one));
            match v {
                HalvingVerdict::Accept => {
                    return (t, true, Ghost(trials));
                },
                HalvingVerdict::GiveUp => {
                    return (t, false, Ghost(trials));
                },
                HalvingVerdict::Halve => {
                    let nearer: Vec<Double> = half_way::<F>(&t.beta, beta_old);
                    t = self.try_beta::<F>(prior, s_total, nearer);
                    proof {
                        let grown = trials.push(t);
                        assert forall|k: int| 0 <= k < grown.len() - 1 implies #[trigger] verdict_at::<F>(
                            grown,
                            k,
                            pdev_old,
                            iter_one,
                        ) is Halve && grown[k + 1].beta@ == half_way_of::<F>(grown[k].beta@, beta_old@) by {
                            assert(grown[k] == trials[k]);
                            assert(verdict_at::<F>(trials, k, pdev_old, iter_one) is Halve);
                            if k < trials.len() - 1 {
                                assert(grown[k + 1] == trials[k + 1]);
                            }
                        }
                        trials = grown;
                    }
                },
            }
        }
    }

    /// The point to start from, or why there is none.
    fn start_point<F: Arithmetic>(
        &self,
        prior: &Vec<Double>,
        s_total: &Matrix,
        beta_warm: Option<&Vec<Double>>,
    ) -> (r: Result<Trial, GamrsError>)
        requires
            lawful::<F>(),
            self.wf(),
            prior@ == self.prior(),
            s_total.square(self.x_design.cols as nat),
            beta_warm matches Some(b) ==> b@.len() == self.x_design.cols,
        ensures
            match r {
                Ok(t) => self.starts::<F>(s_total@, beta_warm, t) && t.eta@.len() == self.y@.len(),
                Err(e) => self.no_start(beta_warm, e),
            },
    {
        let eta: Vec<Double> = match &self.opts.eta_init {
            Some(e0) => {
                let e: Vec<Double> = e0.clone();
                assert(e@ =~= e0@);
                e
            },
            None => match beta_warm {
                Some(b0) => mat_vec::<F>(&self.x_design, b0),
                None => match start_eta::<L, K>(&self.family.loss, &self.family.link, &self.y) {
                    Ok(e) => e,
                    Err(e) => return Err(e),
                },
            },
        };
        let mu: Vec<Double> = means::<K>(&self.family.link, &eta);
        let dev: Double = compute_deviance::<F, L>(&self.family.loss, &self.y, &mu, prior);
        let nought = |j: usize| -> (v: Double)
            ensures
                v == zero(),
            { zero() };
        let beta: Vec<Double> = fill_vec(self.x_design.cols, nought);
        assert(beta@ =~= Seq::new(self.x_design.cols as nat, |j: int| zero()));
        let pdev: Double = plus::<F>(dev, times::<F>(one(), beta_sbeta::<F>(s_total, &beta)));
        Ok(Trial { beta, eta, mu, dev, pdev, valid: true })
    }

    /// The working pair at a point.
    fn pair<F: Arithmetic>(&self, newton: bool, prior: &Vec<Double>, t: &Trial) -> (r: Result<
        (Vec<Double>, Vec<Double>),
        GamrsError,
    >)
        requires
            lawful::<F>(),
            self.wf(),
            prior@ == self.prior(),
            t.mu@.len() == self.y@.len(),
            t.eta@.len() == self.y@.len(),
        ensures
            match r {
                Ok(p) => self.pair_at::<F>(newton, *t, p.0, p.1),
                Err(e) => length_error("observed working pair"@, e) && self.bad_pair(*t),
            },
    {
        match build_pair::<F, L, K, V>(&self.family, newton, &self.y, &t.mu, &t.eta, prior) {
            Ok(p) => {
                assert(working_pair::<F, L, K, V>(
                    self.family,
                    newton,
                    self.y,
                    t.mu,
                    t.eta,
                    *prior,
                    p.0,
                    p.1,
                ));
                Ok(p)
            },
            Err(_) => Err(wrong_length("observed working pair")),
        }
    }

    /// Solves the system of an iteration.
    fn propose<F: Arithmetic, S: LinearSolver>(&self, s_total: &Matrix, w: &Vec<Double>, z: &Vec<Double>) -> (r: Result<
        (S::Factorization, Vec<Double>),
        GamrsError,
    >)
        requires
            lawful::<F>(),
            self.wf(),
            s_total.square(self.x_design.cols as nat),
            w@.len() == self.y@.len(),
            z@.len() == self.y@.len(),
        ensures
            match r {
                Ok(fb) => fb.1@.len() == self.x_design.cols && factored::<S>(
                    self.system::<F>(s_total@, w@),
                    Ok(fb.0),
                ) && ridge_solved::<F, S>(
                    self.system::<F>(s_total@, w@),
                    self.right_hand::<F>(w@, z@),
                    fb.1@,
                ),
                Err(e) => self.unsolved::<F, S>(s_total@, w@, z@, e),
            },
    {
        let xtw: Matrix = weighted_xt::<F>(&self.x_design, w);
        let xtwx: Matrix = mat_mul::<F>(&xtw, &self.x_design);
        let xtwz: Vec<Double> = mat_vec::<F>(&xtw, z);
        let a: Matrix = add_penalty::<F>(&xtwx, s_total, one());
        assert(a@ == self.system::<F>(s_total@, w@));
        match factor_and_solve_with_ridge::<F, S>(&a, &xtwz) {
            Ok(fb) => if fb.1.len() == self.x_design.cols {
                Ok(fb)
            } else {
                assert(ridge_solved::<F, S>(
                    self.system::<F>(s_total@, w@),
                    self.right_hand::<F>(w@, z@),
                    fb.1@,
                ));
                Err(wrong_length("solution"))
            },
            Err(e) => {
                let ghost inner = e;
                let out: GamrsError = e.label_singular("PIRLS factor: ");
                assert(inner.labelled("PIRLS factor: "@, out));
                assert(factored::<S>(self.system::<F>(s_total@, w@), Err(inner)) || factored::<S>(
                    solve_matrix::<F>(self.system::<F>(s_total@, w@)),
                    Err(inner),
                ));
                Err(out)
            },
        }
    }

    /// The iterations from a given penalty. They start at `eta_init` where the
    /// options have it, else at the warm coefficients, else at the family's own
    /// mean. Each one solves for coefficients at the current working pair and
    /// halves the step until it is acceptable; a step that never is ends them.
    pub fn pirls_loop<F: Arithmetic, S: LinearSolver>(
        &self,
        s_total: &Matrix,
        beta_warm: Option<&Vec<Double>>,
    ) -> (r: Result<GaussianInnerFit<S>, GamrsError>)
        requires
            lawful::<F>(),
            self.wf(),
            s_total.square(self.x_design.cols as nat),
            beta_warm matches Some(b) ==> b@.len() == self.x_design.cols,
        ensures
            match r {
                Ok(fit) => self.fitted::<F, S>(s_total@, beta_warm, fit),
                Err(e) => self.fit_error::<F, S>(s_total@, beta_warm, e),
            },
    {
        let n: usize = self.y.len();
        let p: usize = self.x_design.cols;
        let w0: Option<&Vec<Double>> = self.prior_weights.as_ref();
        let prior: Vec<Double> = prior_or_ones(w0, n);
        assert(prior@ == self.prior());
        let mut cur: Trial = match self.start_point::<F>(&prior, s_total, beta_warm) {
            Ok(t) => t,
            Err(e) => return Err(e),
        };
        let ghost start = cur;
        let mut a_factor_opt: Option<S::Factorization> = None;
        let newton: bool = self.family.loss.use_newton_irls();
        let mut run: PirlsRun = PirlsRun::begin(self.opts.max_iters, self.opts.dev_rel_tol);
        let ghost mut steps: Seq<PirlsStep<S>> = Seq::empty();
        while !run.stopped
            invariant
                lawful::<F>(),
                self.wf(),
                call_ensures(L::use_newton_irls, (&self.family.loss,), newton),
                n == self.y@.len(),
                p == self.x_design.cols,
                s_total.square(p as nat),
                prior@ == self.prior(),
                cur.eta@.len() == n,
                cur.mu@.len() == n,
                cur.beta@.len() == p,
                run.wf(),
                run == pirls_control::<F, S>(self.opts, start, steps),
                cur == pirls_point::<S>(start, steps),
                a_factor_opt == pirls_factor::<S>(steps),
                self.course::<F, S>(s_total@, beta_warm, newton, start, steps),
                steps.len() == run.iters_used,
                run.max_iters == self.opts.max_iters,
            decreases self.opts.max_iters - run.iters_used,
        {
            let (w, z) = match self.pair::<F>(newton, &prior, &cur) {
                Ok(pair) => pair,
                Err(e) => {
                    assert(self.iteration_fails::<F, S>(s_total@, newton, cur, e));
                    assert(self.stuck::<F, S>(s_total@, beta_warm, newton, start, steps, e));
                    return Err(e);
                },
            };
            let (factor, b) = match self.propose::<F, S>(s_total, &w, &z) {
                Ok(fb) => fb,
                Err(e) => {
                    assert(self.iteration_fails::<F, S>(s_total@, newton, cur, e));
                    assert(self.stuck::<F, S>(s_total@, beta_warm, newton, start, steps, e));
                    return Err(e);
                },
            };
            let ghost proposed = b@;
            let (t, accepted, trials) = self.halve_until_valid::<F>(
                &prior,
                s_total,
                b,
                &cur.beta,
                cur.pdev,
                run.iters_used == 0,
            );
            proof {
                let s = PirlsStep::<S> { w, z, factor, proposed, trials: trials@, accepted };
                assert(steps.push(s).drop_last() =~= steps);
                assert(steps.push(s).last() == s);
                assert(self.trial_of::<F>(s_total@, trials@[trials@.len() - 1]));
                assert(self.steps_to::<F, S>(s_total@, newton, steps.len() == 0, cur, s));
                steps = steps.push(s);
            }
            run.advance::<F>(accepted, cur.dev, t.dev);
            if accepted {
                cur = t;
                a_factor_opt = Some(factor);
            }
        }
        let loop_factor: S::Factorization = match a_factor_opt {
            Some(f) => f,
            None => {
                let xtw: Matrix = weighted_xt::<F>(&self.x_design, &prior);
                let xtwx: Matrix = mat_mul::<F>(&xtw, &self.x_design);
                let a: Matrix = add_penalty::<F>(&xtwx, s_total, one());
                let lifted: Matrix = relative_ridge::<F>(&a, lit(E_M12));
                match S::factorize(&lifted) {
                    Ok(f) => {
                        assert(factored::<S>(lifted@, Ok(f)));
                        f
                    },
                    Err(e) => {
                        assert(factored::<S>(lifted@, Err(e)));
                        assert(self.stuck::<F, S>(s_total@, beta_warm, newton, start, steps, e));
                        return Err(e);
                    },
                }
            },
        };
        assert(self.loop_factor::<F, S>(s_total@, steps, Ok(loop_factor)));
        let (working_weights, working_response) = match self.pair::<F>(newton, &prior, &cur) {
            Ok(pair) => pair,
            Err(e) => {
                assert(self.stuck::<F, S>(s_total@, beta_warm, newton, start, steps, e));
                return Err(e);
            },
        };
        let own_weights: Vec<Double> = working_weights.clone();
        assert(own_weights@ =~= working_weights@);
        let ghost mut answered: Option<Vec<Double>> = None;
        let (a_factor, a_weights) = match family_observed_score_weights::<L>(
            self.observed_on,
            &self.family.loss,
            &self.y,
            &cur.eta,
            &prior,
        ) {
            Some(w_score) => {
                proof {
                    answered = Some(w_score);
                    assert(is_prior(prior, self.prior()));
                    assert(self.score_weights(cur.eta, answered));
                }
                let xtw: Matrix = weighted_xt::<F>(&self.x_design, &w_score);
                let xtwx: Matrix = mat_mul::<F>(&xtw, &self.x_design);
                let a: Matrix = add_penalty::<F>(&xtwx, s_total, one());
                assert(a@ == self.system::<F>(s_total@, w_score@));
                match S::factorize(&a) {
                    Ok(f) => {
                        assert(factored::<S>(a@, Ok(f)));
                        (f, w_score)
                    },
                    Err(e) => {
                        assert(factored::<S>(a@, Err(e)));
                        (loop_factor, own_weights)
                    },
                }
            },
            None => {
                assert(is_prior(prior, self.prior()));
                assert(self.score_weights(cur.eta, answered));
                (loop_factor, own_weights)
            },
        };
        let rss: Double = working_rss::<F>(&working_weights, &working_response, &cur.eta);
        let slopes: Vec<Double> = weight_slopes::<F, K, V>(
            &self.family.link,
            &self.family.variance,
            &cur.mu,
            &prior,
        );
        let x_copy: Matrix = self.x_design.copy();
        let fit: GaussianInnerFit<S> = GaussianInnerFit {
            beta: cur.beta,
            eta: cur.eta,
            mu: cur.mu,
            working_weights,
            working_response,
            deviance: cur.dev,
            rss,
            n,
            p,
            iterations: run.iters_used,
            converged: run.converged,
            a_factor,
            a_weights,
            log_det_h_override: None,
            tk_kkt_inputs: None,
            dw_deta: Some(slopes),
            x_design: Some(x_copy),
        };
        assert(self.score_weights(fit.eta, answered));
        assert(self.score_factor::<F, S>(s_total@, steps, fit));
        assert(self.fit_of::<F, S>(s_total@, beta_warm, newton, start, steps, fit));
        Ok(fit)
    }

    /// The fit at log smoothing parameters `rho`.
    pub fn fit<F: Arithmetic, S: LinearSolver>(&self, rho: &Vec<Double>) -> (r: Result<
        GaussianInnerFit<S>,
        GamrsError,
    >)
        requires
            lawful::<F>(),
            self.wf(),
            rho@.len() == self.s_list@.len(),
        ensures
            match r {
                Ok(fit) => self.fitted::<F, S>(
                    combined_s_of::<F>(self.s_list@, rho@, self.x_design.cols as nat),
                    None,
                        fit,
                ),
                Err(e) => self.fit_error::<F, S>(
                    combined_s_of::<F>(self.s_list@, rho@, self.x_design.cols as nat),
                    None,
                    e,
                ),
            },
    {
        self.fit_warm::<F, S>(rho, None)
    }

    /// The fit at log smoothing parameters `rho`, started at given coefficients
    /// where there are any.
    pub fn fit_warm<F: Arithmetic, S: LinearSolver>(
        &self,
        rho: &Vec<Double>,
        beta_warm: Option<&Vec<Double>>,
    ) -> (r: Result<GaussianInnerFit<S>, GamrsError>)
        requires
            lawful::<F>(),
            self.wf(),
            rho@.len() == self.s_list@.len(),
            beta_warm matches Some(b) ==> b@.len() == self.x_design.cols,
        ensures
            match r {
                Ok(fit) => self.fitted::<F, S>(
                    combined_s_of::<F>(self.s_list@, rho@, self.x_design.cols as nat),
                    beta_warm,
                        fit,
                ),
                Err(e) => self.fit_error::<F, S>(
                    combined_s_of::<F>(self.s_list@, rho@, self.x_design.cols as nat),
                    beta_warm,
                    e,
                ),
            },
    {
        let s_total: Matrix = combined_s::<F>(&self.s_list, rho, self.x_design.cols);
        self.pirls_loop::<F, S>(&s_total, beta_warm)
    }

    /// Fisher weights and response at a start: the warm coefficients, or the
    /// family's own mean.
    pub open spec fn started_pair<F: Arithmetic>(
        &self,
        beta_warm: Option<&Vec<Double>>,
        w: Seq<Double>,
        z: Seq<Double>,
    ) -> bool {
        exists|mu0: Seq<Double>, eta0: Seq<Double>|
            means_of::<K>(self.family.link, eta0, mu0) && (match beta_warm {
                Some(b) => eta0 == mat_vec_of::<F>(self.x_design@, b@),
                None => own_start::<L, K>(self.family.loss, self.family.link, self.y, eta0),
            }) && #[trigger] standard_pair::<F, K, V>(
                self.family.link,
                self.family.variance,
                false,
                self.y@,
                mu0,
                eta0,
                self.prior(),
                w,
                z,
            )
    }

    /// The penalised cross-product at weights `w`.
    pub open spec fn penalised<F: Arithmetic>(&self, rho: Seq<Double>, w: Seq<Double>) -> Seq<Seq<Double>> {
        let p = self.x_design.cols as nat;
        add_penalty_of::<F>(
            mat_mul_of::<F>(weighted_xt_of::<F>(self.x_design@, p, w), self.x_design@, p),
            combined_s_of::<F>(self.s_list@, rho, p),
            one(),
        )
    }

    /// What a single step holds.
    pub open spec fn single_step<F: Arithmetic, S: LinearSolver>(
        &self,
        rho: Seq<Double>,
        beta_warm: Option<&Vec<Double>>,
        fit: GaussianInnerFit<S>,
    ) -> bool {
        &&& fit.iterations == 1
        &&& fit.converged
        &&& fit.n == self.y@.len()
        &&& fit.p == self.x_design.cols
        &&& factored::<S>(self.penalised::<F>(rho, fit.working_weights@), Ok(fit.a_factor))
        &&& ridge_solved::<F, S>(
            self.penalised::<F>(rho, fit.working_weights@),
            mat_vec_of::<F>(
                weighted_xt_of::<F>(
                    self.x_design@,
                    self.x_design.cols as nat,
                    fit.working_weights@,
                ),
                fit.working_response@,
            ),
            fit.beta@,
        )
        &&& fit.eta@ == mat_vec_of::<F>(self.x_design@, fit.beta@)
        &&& means_of::<K>(self.family.link, fit.eta@, fit.mu@)
        &&& deviance_of::<F, L>(self.family.loss, self.y@, fit.mu@, self.prior(), fit.deviance)
        &&& fit.rss == fit.deviance
        &&& fit.a_weights@ == fit.working_weights@
        &&& self.started_pair::<F>(beta_warm, fit.working_weights@, fit.working_response@)
        &&& fit.log_det_h_override is None
        &&& fit.tk_kkt_inputs is None
        &&& fit.dw_deta is None
        &&& fit.x_design is None
    }

    /// Why there is no single step.
    pub open spec fn single_fails<F: Arithmetic, S: LinearSolver>(
        &self,
        rho: Seq<Double>,
        beta_warm: Option<&Vec<Double>>,
        e: GamrsError,
    ) -> bool {
        ||| beta_warm is None && length_error("starting mean"@, e) && exists|m: Vec<Double>|
            m@.len() != self.y@.len() && #[trigger] call_ensures(
                L::initial_mu,
                (&self.family.loss, &self.y),
                m,
            )
        ||| exists|w: Seq<Double>, z: Seq<Double>| #[trigger]
            self.started_pair::<F>(beta_warm, w, z) && self.single_unsolved::<F, S>(rho, w, z, e)
    }

    /// The system of a single step could not be solved, for the reason that `e`
    /// gives.
    pub open spec fn single_unsolved<F: Arithmetic, S: LinearSolver>(
        &self,
        rho: Seq<Double>,
        w: Seq<Double>,
        z: Seq<Double>,
        e: GamrsError,
    ) -> bool {
        let a = self.penalised::<F>(rho, w);
        ||| exists|inner: GamrsError|
            inner.labelled("PIRLS single-step factor: "@, e) && (#[trigger] factored::<S>(a, Err(inner))
                || factored::<S>(solve_matrix::<F>(a), Err(inner)))
        ||| length_error("solution"@, e) && exists|b: Seq<Double>|
            b.len() != self.x_design.cols && #[trigger] ridge_solved::<F, S>(
                a,
                self.right_hand::<F>(w, z),
                b,
            )
    }

    /// One reweighted least-squares step with Fisher weights from the warm
    /// coefficients, or from the family's own mean. No halving, no convergence
    /// test: the result reports one iteration, converged.
    pub fn fit_single_irls<F: Arithmetic, S: LinearSolver>(
        &self,
        rho: &Vec<Double>,
        beta_warm: Option<&Vec<Double>>,
    ) -> (r: Result<GaussianInnerFit<S>, GamrsError>)
        requires
            lawful::<F>(),
            self.wf(),
            rho@.len() == self.s_list@.len(),
            beta_warm matches Some(b) ==> b@.len() == self.x_design.cols,
        ensures
            match r {
                Ok(fit) => self.single_step::<F, S>(rho@, beta_warm, fit),
                Err(e) => self.single_fails::<F, S>(rho@, beta_warm, e),
            },
    {
        let n: usize = self.y.len();
        let p: usize = self.x_design.cols;
        let s_total: Matrix = combined_s::<F>(&self.s_list, rho, p);
        let w0: Option<&Vec<Double>> = self.prior_weights.as_ref();
        let prior: Vec<Double> = prior_or_ones(w0, n);
        assert(prior@ == self.prior());
        let eta0: Vec<Double> = match beta_warm {
            Some(b0) => mat_vec::<F>(&self.x_design, b0),
            None => match start_eta::<L, K>(&self.family.loss, &self.family.link, &self.y) {
                Ok(e) => e,
                Err(e) => return Err(e),
            },
        };
        let mu0: Vec<Double> = means::<K>(&self.family.link, &eta0);
        let (w, z) = standard_rows::<F, K, V>(
            &self.family.link,
            &self.family.variance,
            false,
            &self.y,
            &mu0,
            &eta0,
            &prior,
        );
        assert(standard_pair::<F, K, V>(
            self.family.link,
            self.family.variance,
            false,
            self.y@,
            mu0@,
            eta0@,
            self.prior(),
            w@,
            z@,
        ));
        assert(self.started_pair::<F>(beta_warm, w@, z@));
        let xtw: Matrix = weighted_xt::<F>(&self.x_design, &w);
        let xtwx: Matrix = mat_mul::<F>(&xtw, &self.x_design);
        let xtwz: Vec<Double> = mat_vec::<F>(&xtw, &z);
        let a: Matrix = add_penalty::<F>(&xtwx, &s_total, one());
        assert(a@ == self.penalised::<F>(rho@, w@));
        let (a_factor, beta) = match factor_and_solve_with_ridge::<F, S>(&a, &xtwz) {
            Ok(fb) => fb,
            Err(e) => {
                let ghost inner = e;
                let out: GamrsError = e.label_singular("PIRLS single-step factor: ");
                assert(inner.labelled("PIRLS single-step factor: "@, out));
                assert(factored::<S>(self.penalised::<F>(rho@, w@), Err(inner)) || factored::<S>(
                    solve_matrix::<F>(self.penalised::<F>(rho@, w@)),
                    Err(inner),
                ));
                assert(self.single_unsolved::<F, S>(rho@, w@, z@, out));
                return Err(out);
            },
        };
        assert(ridge_solved::<F, S>(
            self.penalised::<F>(rho@, w@),
            self.right_hand::<F>(w@, z@),
            beta@,
        ));
        if beta.len() != p {
            let e: GamrsError = wrong_length("solution");
            assert(self.single_unsolved::<F, S>(rho@, w@, z@, e));
            return Err(e);
        }
        let eta: Vec<Double> = mat_vec::<F>(&self.x_design, &beta);
        let mu: Vec<Double> = means::<K>(&self.family.link, &eta);
        let dev: Double = compute_deviance::<F, L>(&self.family.loss, &self.y, &mu, &prior);
        let a_weights: Vec<Double> = w.clone();
        assert(a_weights@ =~= w@);
        let fit: GaussianInnerFit<S> = GaussianInnerFit {
            beta,
            eta,
            mu,
            working_weights: w,
            working_response: z,
            deviance: dev,
            rss: dev,
            n,
            p,
            iterations: 1,
            converged: true,
            a_factor,
            a_weights,
            log_det_h_override: None,
            tk_kkt_inputs: None,
            dw_deta: None,
            x_design: None,
        };
        assert(self.single_step::<F, S>(rho@, beta_warm, fit));
        Ok(fit)
    }
}

} // verus!
