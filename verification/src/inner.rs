//! Inner solvers: the penalised fit at given smoothing parameters.

use vstd::prelude::*;

use crate::arith::{exp, lawful, minus, plus, root, times, total, Arithmetic};
use crate::dense::{
    gram, gram_of, mat_mul, mat_mul_of, mat_t_vec, mat_t_vec_of, mat_vec, mat_vec_of,
    relative_ridge, relative_ridge_of, weighted_xt, weighted_xt_of,
};
use crate::double::{half, lit, zero, Double, EPSILON, E_M7, TEN, TENTH};
use crate::error::GamrsError;
use crate::inner::linalg::LinearSolver;
use crate::matrix::{fill_vec, grid, Matrix};
use crate::text::join3;
use crate::traits::{checked_cholesky, chol_of, chol_refused, DenseBackend};

pub mod armijo;
pub mod closed_form;
pub mod exact_laws;
pub mod gam_fit5;
pub mod laws;
pub mod linalg;
pub mod pirls;
pub mod solver;

verus! {

/// The result of a penalised fit at given smoothing parameters.
pub struct GaussianInnerFit<S: LinearSolver> {
    /// Coefficients.
    pub beta: Vec<Double>,
    /// Linear predictor.
    pub eta: Vec<Double>,
    /// Mean.
    pub mu: Vec<Double>,
    /// Working weights at the end.
    pub working_weights: Vec<Double>,
    /// Working response at the end.
    pub working_response: Vec<Double>,
    /// Unpenalised deviance.
    pub deviance: Double,
    /// Weighted sum of squares of the working residuals.
    pub rss: Double,
    /// Observations.
    pub n: usize,
    /// Coefficients.
    pub p: usize,
    /// Iterations.
    pub iterations: usize,
    /// Whether the iterations converged.
    pub converged: bool,
    /// Factor of the penalised cross-product that the score differentiates.
    pub a_factor: S::Factorization,
    /// The weights that `a_factor` was built from.
    pub a_weights: Vec<Double>,
    /// Log determinant in place of that of `a_factor`.
    pub log_det_h_override: Option<Double>,
    /// Inputs of the weight-chain gradient term, where it applies.
    pub tk_kkt_inputs: Option<TkKKTInputs>,
    /// Derivative of the working weights along the linear predictor; `None` where
    /// the weights are constant.
    pub dw_deta: Option<Vec<Double>>,
    /// Design matrix, kept where `dw_deta` is.
    pub x_design: Option<Matrix>,
}

impl<S: LinearSolver> GaussianInnerFit<S> {
    /// The log determinant of the stored factor.
    pub fn log_det_a(&self) -> (r: Double)
        ensures
            call_ensures(S::logdet, (&self.a_factor,), r),
    {
        S::logdet(&self.a_factor)
    }

    /// `tr(A^-1 M)` from the stored factor.
    pub fn trace_a_inv(&self, m: &Matrix) -> (r: Double)
        ensures
            call_ensures(S::trace_a_inv, (&self.a_factor, m), r),
    {
        S::trace_a_inv(&self.a_factor, m)
    }

    /// `A^-1 b` from the stored factor.
    pub fn solve_a(&self, b: &Vec<Double>) -> (r: Vec<Double>)
        ensures
            call_ensures(S::solve, (&self.a_factor, b), r),
    {
        S::solve(&self.a_factor, b)
    }

    /// `A^-1` from the stored factor.
    pub fn a_inv(&self) -> (r: Matrix)
        ensures
            call_ensures(S::invert, (&self.a_factor,), r),
    {
        S::invert(&self.a_factor)
    }
}

/// Inputs of the gradient term that the dependence of the weights on the
/// coefficients brings in.
pub struct TkKKTInputs {
    /// Derivative of each observation's weight.
    pub a1: Vec<Double>,
    /// `x_i' A^-1 x_i`.
    pub lev_uw: Vec<Double>,
    /// Derivative of the linear predictor along each smoothing parameter.
    pub eta1_per_term: Vec<Vec<Double>>,
    /// `tr(A^-1 S_k)` of each term.
    pub tr_a_newton_inv_s_per_term: Vec<Double>,
    /// `A^-1`.
    pub a_newton_inv: Matrix,
    /// Ones.
    pub working_weights_sign: Vec<Double>,
}

/// `sum_j exp(rho_j) S_j`, where each `S_j` is `p` by `p`.
pub open spec fn combined_s_of<F: Arithmetic>(s_list: Seq<Matrix>, rho: Seq<Double>, p: nat) -> Seq<
    Seq<Double>,
> {
    grid(
        p,
        p,
        |i: int, k: int|
            total::<F>(|j: int| times::<F>(exp::<F>(rho[j]), s_list[j]@[i][k]), rho.len()),
    )
}

/// Every penalty is `p` by `p`.
pub open spec fn penalties_fit(s_list: Seq<Matrix>, p: nat) -> bool {
    forall|j: int| 0 <= j < s_list.len() ==> (#[trigger] s_list[j]).square(p)
}

/// The same penalties.
pub open spec fn same_penalties(a: Seq<Matrix>, b: Seq<Matrix>) -> bool {
    a.len() == b.len() && forall|j: int| 0 <= j < a.len() ==> (#[trigger] a[j])@ == b[j]@
}

/// A copy of the penalties.
pub fn copy_penalties(s: &Vec<Matrix>, p: usize) -> (r: Vec<Matrix>)
    requires
        penalties_fit(s@, p as nat),
    ensures
        penalties_fit(r@, p as nat),
        same_penalties(r@, s@),
{
    let mut r: Vec<Matrix> = Vec::new();
    for j in 0..s.len()
        invariant
            penalties_fit(s@, p as nat),
            r@.len() == j,
            forall|k: int|
                0 <= k < j ==> (#[trigger] r@[k])@ == s@[k]@ && r@[k].square(p as nat),
    {
        assert(s@[j as int].square(p as nat));
        let m: Matrix = s[j].copy();
        assert(m.shape(p as nat, p as nat));
        r.push(m);
    }
    r
}

fn combined_entry<F: Arithmetic>(s_list: &Vec<Matrix>, rho: &Vec<Double>, p: usize, i: usize, k: usize) -> (r: Double)
    requires
        lawful::<F>(),
        s_list@.len() == rho@.len(),
        penalties_fit(s_list@, p as nat),
        i < p,
        k < p,
    ensures
        r == total::<F>(
            |j: int| times::<F>(exp::<F>(rho@[j]), s_list@[j]@[i as int][k as int]),
            rho@.len(),
        ),
{
    let mut acc: Double = zero();
    for j in 0..rho.len()
        invariant
            lawful::<F>(),
            s_list@.len() == rho@.len(),
            penalties_fit(s_list@, p as nat),
            i < p,
            k < p,
            acc == total::<F>(
                |j: int| times::<F>(exp::<F>(rho@[j]), s_list@[j]@[i as int][k as int]),
                j as nat,
            ),
    {
        assert(s_list@[j as int].square(p as nat));
        acc = plus::<F>(acc, times::<F>(exp::<F>(rho[j]), s_list[j].get(i, k)));
    }
    acc
}

/// The combined penalty `sum_j exp(rho_j) S_j`.
pub fn combined_s<F: Arithmetic>(s_list: &Vec<Matrix>, rho: &Vec<Double>, p: usize) -> (r: Matrix)
    requires
        lawful::<F>(),
        s_list@.len() == rho@.len(),
        penalties_fit(s_list@, p as nat),
    ensures
        r.square(p as nat),
        r@ == combined_s_of::<F>(s_list@, rho@, p as nat),
{
    let entry = |i: usize, k: usize| -> (v: Double)
        requires
            i < p,
            k < p,
        ensures
            v == total::<F>(
                |j: int| times::<F>(exp::<F>(rho@[j]), s_list@[j]@[i as int][k as int]),
                rho@.len(),
            ),
        { combined_entry::<F>(s_list, rho, p, i, k) };
    let r: Matrix = Matrix::fill(p, p, entry);
    proof {
        r.lemma_is_grid(
            p as nat,
            p as nat,
            |i: int, k: int|
                total::<F>(|j: int| times::<F>(exp::<F>(rho@[j]), s_list@[j]@[i][k]), rho@.len()),
        );
    }
    r
}

/// `X'WX` for prior weights, or `X'X` without.
pub open spec fn xtwx_of<F: Arithmetic>(x: Seq<Seq<Double>>, p: nat, w: Option<Seq<Double>>) -> Seq<Seq<Double>> {
    match w {
        Some(wv) => mat_mul_of::<F>(weighted_xt_of::<F>(x, p, wv), x, p),
        None => gram_of::<F>(x, p, x, p),
    }
}

/// `X'Wy` for prior weights, or `X'y` without.
pub open spec fn xtwy_of<F: Arithmetic>(
    x: Seq<Seq<Double>>,
    p: nat,
    y: Seq<Double>,
    w: Option<Seq<Double>>,
) -> Seq<Double> {
    match w {
        Some(wv) => mat_vec_of::<F>(weighted_xt_of::<F>(x, p, wv), y),
        None => mat_t_vec_of::<F>(x, p, y),
    }
}

/// The view of optional weights.
pub open spec fn weights_view(w: Option<&Vec<Double>>) -> Option<Seq<Double>> {
    match w {
        Some(v) => Some(v@),
        None => None,
    }
}

/// Optional weights are as long as the observations.
pub open spec fn weights_fit(w: Option<&Vec<Double>>, n: nat) -> bool {
    match w {
        Some(v) => v@.len() == n,
        None => true,
    }
}

/// Builds `X'WX` and `X'Wy` together.
pub fn xtwx_xtwy<F: Arithmetic>(x: &Matrix, y: &Vec<Double>, w: Option<&Vec<Double>>) -> (r: (Matrix, Vec<Double>))
    requires
        lawful::<F>(),
        x.shape(y@.len(), x.cols as nat),
        weights_fit(w, y@.len()),
    ensures
        r.0.square(x.cols as nat),
        r.0@ == xtwx_of::<F>(x@, x.cols as nat, weights_view(w)),
        r.1@ == xtwy_of::<F>(x@, x.cols as nat, y@, weights_view(w)),
        r.1@.len() == x.cols,
{
    match w {
        Some(wv) => {
            let wxt: Matrix = weighted_xt::<F>(x, wv);
            (mat_mul::<F>(&wxt, x), mat_vec::<F>(&wxt, y))
        },
        None => (gram::<F>(x, x), mat_t_vec::<F>(x, y)),
    }
}

/// `A + 1e-7 max(1, |A_ii|) I`.
pub open spec fn safety_ridged_of<F: Arithmetic>(a: Seq<Seq<Double>>) -> Seq<Seq<Double>> {
    relative_ridge_of::<F>(a, lit(E_M7))
}

/// The lower factor of a matrix with a safety ridge, which the saturating families
/// solve with.
pub fn cholesky_with_safety_ridge<F: Arithmetic, D: DenseBackend>(a: &Matrix, label: &str) -> (r: Result<
    Matrix,
    GamrsError,
>)
    requires
        lawful::<F>(),
        a.square(a@.len()),
    ensures
        match r {
            Ok(l) => l.square(a@.len()) && chol_of::<D>(safety_ridged_of::<F>(a@), l),
            Err(e) => e matches GamrsError::SingularSystem(m) && exists|t: Seq<char>|
                m@ == label@ + " Cholesky: "@ + t && #[trigger] chol_refused::<D>(
                    safety_ridged_of::<F>(a@),
                    a@.len(),
                    t,
                ),
        },
{
    let lifted: Matrix = relative_ridge::<F>(a, lit(E_M7));
    match checked_cholesky::<D>(&lifted, a.rows.len()) {
        Ok(l) => {
            assert(chol_of::<D>(safety_ridged_of::<F>(a@), l));
            Ok(l)
        },
        Err(t) => {
            assert(chol_refused::<D>(safety_ridged_of::<F>(a@), a@.len(), t@));
            Err(GamrsError::SingularSystem(join3(label, " Cholesky: ", t.as_str())))
        },
    }
}

/// How far the penalised deviance may rise before a step is halved:
/// `10 (0.1 + |old|) sqrt(2^-52)`.
pub open spec fn divergence_bar<F: Arithmetic>(pdev_old: Double) -> Double {
    times::<F>(
        times::<F>(lit(TEN), plus::<F>(lit(TENTH), pdev_old.abs_spec())),
        root::<F>(lit(EPSILON)),
    )
}

/// A trial is halved if its penalised deviance is not finite, if it is invalid,
/// or, after the first iteration, if its penalised deviance rose too far.
pub open spec fn needs_halve_spec<F: Arithmetic>(
    pdev_try: Double,
    pdev_old: Double,
    iter_one: bool,
    invalid: bool,
) -> bool {
    !pdev_try.finite() || invalid || (!iter_one && divergence_bar::<F>(pdev_old).below(
        minus::<F>(pdev_try, pdev_old),
    ))
}

/// Halvings of one inner step, at most.
pub const MAX_INNER_HALVINGS: usize = 100;

/// What to do with a trial of the coefficients.
#[derive(Clone, Copy, Debug, PartialEq, Eq, Structural)]
pub enum HalvingVerdict {
    /// Take it.
    Accept,
    /// Move it half-way to the old coefficients and try again.
    Halve,
    /// Stop; no acceptable trial was found.
    GiveUp,
}

/// Step halving toward the old coefficients.
#[derive(Clone, Copy, Debug, PartialEq, Eq, Structural)]
pub struct Halving {
    /// Penalised deviance at the old coefficients.
    pub pdev_old: Double,
    /// The first inner iteration, in which a rise is permitted.
    pub iter_one: bool,
    /// Halvings done.
    pub halvings: usize,
}

impl Halving {
    /// Begins with the full step.
    pub fn begin(pdev_old: Double, iter_one: bool) -> (h: Halving)
        ensures
            h == (Halving { pdev_old, iter_one, halvings: 0 }),
    {
        Halving { pdev_old, iter_one, halvings: 0 }
    }

    /// The verdict on a trial.
    pub open spec fn verdict<F: Arithmetic>(self, pdev_try: Double, invalid: bool) -> HalvingVerdict {
        if !needs_halve_spec::<F>(pdev_try, self.pdev_old, self.iter_one, invalid) {
            HalvingVerdict::Accept
        } else if self.halvings < MAX_INNER_HALVINGS {
            HalvingVerdict::Halve
        } else {
            HalvingVerdict::GiveUp
        }
    }

    /// Judges a trial by its penalised deviance and validity.
    pub fn judge<F: Arithmetic>(&mut self, pdev_try: Double, invalid: bool) -> (v: HalvingVerdict)
        requires
            lawful::<F>(),
        ensures
            v == old(self).verdict::<F>(pdev_try, invalid),
            *final(self) == (Halving {
                halvings: if v is Halve {
                    (old(self).halvings + 1) as usize
                } else {
                    old(self).halvings
                },
                ..*old(self)
            }),
    {
        let needs: bool = if !pdev_try.is_finite() {
            true
        } else if invalid {
            true
        } else if self.iter_one {
            false
        } else {
            let bar: Double = times::<F>(
                times::<F>(lit(TEN), plus::<F>(lit(TENTH), self.pdev_old.abs())),
                root::<F>(lit(EPSILON)),
            );
            bar.lt(minus::<F>(pdev_try, self.pdev_old))
        };
        if !needs {
            HalvingVerdict::Accept
        } else if self.halvings < MAX_INNER_HALVINGS {
            self.halvings = self.halvings + 1;
            HalvingVerdict::Halve
        } else {
            HalvingVerdict::GiveUp
        }
    }
}

/// An accepted trial has a finite penalised deviance and is valid; after the
/// first iteration its deviance did not rise above the bar. A trial is halved at
/// most a hundred times.
pub proof fn law_accepted_trials_are_sound<F: Arithmetic>(h: Halving, pdev_try: Double, invalid: bool)
    ensures
        h.verdict::<F>(pdev_try, invalid) is Accept ==> pdev_try.finite() && !invalid && (h.iter_one
            || !divergence_bar::<F>(h.pdev_old).below(minus::<F>(pdev_try, h.pdev_old))),
        h.halvings >= MAX_INNER_HALVINGS ==> !(h.verdict::<F>(pdev_try, invalid) is Halve),
{
}

/// Coefficients with what an iteration looks at.
pub struct Trial {
    /// Coefficients.
    pub beta: Vec<Double>,
    /// Linear predictor.
    pub eta: Vec<Double>,
    /// Mean.
    pub mu: Vec<Double>,
    /// Deviance.
    pub dev: Double,
    /// Penalised deviance.
    pub pdev: Double,
    /// Whether linear predictor, mean and deviance are usable.
    pub valid: bool,
}

/// The verdict on trial `k` of a halving.
pub open spec fn verdict_at<F: Arithmetic>(trials: Seq<Trial>, k: int, pdev_old: Double, iter_one: bool) -> HalvingVerdict {
    (Halving { pdev_old, iter_one, halvings: k as usize }).verdict::<F>(trials[k].pdev, !trials[k].valid)
}

/// The trials of a halving: the full step first, each next one half-way to the old
/// coefficients, as long as the verdict is to halve; the last one accepted or
/// given up.
pub open spec fn halving_course<F: Arithmetic>(
    trials: Seq<Trial>,
    first: Seq<Double>,
    beta_old: Seq<Double>,
    pdev_old: Double,
    iter_one: bool,
    accepted: bool,
) -> bool {
    &&& 1 <= trials.len() <= MAX_INNER_HALVINGS + 1
    &&& trials[0].beta@ == first
    &&& forall|k: int|
        0 <= k < trials.len() - 1 ==> #[trigger] verdict_at::<F>(trials, k, pdev_old, iter_one) is Halve
            && trials[k + 1].beta@ == half_way_of::<F>(trials[k].beta@, beta_old)
    &&& verdict_at::<F>(trials, trials.len() - 1, pdev_old, iter_one) == if accepted {
        HalvingVerdict::Accept
    } else {
        HalvingVerdict::GiveUp
    }
}

/// The point half-way to the old coefficients.
pub open spec fn half_way_of<F: Arithmetic>(beta_try: Seq<Double>, beta_old: Seq<Double>) -> Seq<Double> {
    Seq::new(beta_try.len(), |j: int| times::<F>(half(), plus::<F>(beta_try[j], beta_old[j])))
}

/// Moves a trial half-way to the old coefficients.
pub fn half_way<F: Arithmetic>(beta_try: &Vec<Double>, beta_old: &Vec<Double>) -> (r: Vec<Double>)
    requires
        lawful::<F>(),
        beta_try@.len() == beta_old@.len(),
    ensures
        r@ == half_way_of::<F>(beta_try@, beta_old@),
{
    let entry = |j: usize| -> (v: Double)
        requires
            j < beta_try@.len(),
        ensures
            v == times::<F>(half(), plus::<F>(beta_try@[j as int], beta_old@[j as int])),
        { times::<F>(half(), plus::<F>(beta_try[j], beta_old[j])) };
    let r: Vec<Double> = fill_vec(beta_try.len(), entry);
    assert(r@ =~= half_way_of::<F>(beta_try@, beta_old@));
    r
}

/// Whether every entry is finite.
pub fn all_finite(v: &Vec<Double>) -> (b: bool)
    ensures
        b == forall|i: int| 0 <= i < v@.len() ==> (#[trigger] v@[i]).finite(),
{
    for i in 0..v.len()
        invariant
            forall|k: int| 0 <= k < i ==> (#[trigger] v@[k]).finite(),
    {
        if !v[i].is_finite() {
            return false;
        }
    }
    true
}

/// Largest absolute difference of the first `n` entries.
pub open spec fn max_change_upto<F: Arithmetic>(a: Seq<Double>, b: Seq<Double>, n: nat) -> Double
    decreases n,
{
    if n == 0 {
        zero()
    } else {
        max_change_upto::<F>(a, b, (n - 1) as nat).max_spec(
            minus::<F>(a[n - 1], b[n - 1]).abs_spec(),
        )
    }
}

/// Largest absolute difference of two vectors.
pub fn max_change<F: Arithmetic>(a: &Vec<Double>, b: &Vec<Double>) -> (r: Double)
    requires
        lawful::<F>(),
        a@.len() == b@.len(),
    ensures
        r == max_change_upto::<F>(a@, b@, a@.len()),
{
    let mut acc: Double = zero();
    for i in 0..a.len()
        invariant
            lawful::<F>(),
            a@.len() == b@.len(),
            acc == max_change_upto::<F>(a@, b@, i as nat),
    {
        acc = acc.max(minus::<F>(a[i], b[i]).abs());
    }
    acc
}

/// `sum_i w_i (z_i - eta_i)^2`, each as `(w r) r`.
pub open spec fn working_rss_of<F: Arithmetic>(w: Seq<Double>, z: Seq<Double>, eta: Seq<Double>) -> Double {
    total::<F>(
        |i: int|
            times::<F>(times::<F>(w[i], minus::<F>(z[i], eta[i])), minus::<F>(z[i], eta[i])),
        w.len(),
    )
}

/// The weighted sum of squares of the working residuals.
pub fn working_rss<F: Arithmetic>(w: &Vec<Double>, z: &Vec<Double>, eta: &Vec<Double>) -> (r: Double)
    requires
        lawful::<F>(),
        z@.len() == w@.len(),
        eta@.len() == w@.len(),
    ensures
        r == working_rss_of::<F>(w@, z@, eta@),
{
    let mut acc: Double = zero();
    for i in 0..w.len()
        invariant
            lawful::<F>(),
            z@.len() == w@.len(),
            eta@.len() == w@.len(),
            acc == total::<F>(
                |i: int|
                    times::<F>(
                        times::<F>(w@[i], minus::<F>(z@[i], eta@[i])),
                        minus::<F>(z@[i], eta@[i]),
                    ),
                i as nat,
            ),
    {
        let r: Double = minus::<F>(z[i], eta[i]);
        acc = plus::<F>(acc, times::<F>(times::<F>(w[i], r), r));
    }
    acc
}

} // verus!
