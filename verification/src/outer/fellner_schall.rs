//! The multiplicative update of the smoothing parameters.

use vstd::prelude::*;

use crate::arith::{count, exp, lawful, ln, minus, over, plus, times, Arithmetic};
use crate::dense::{beta_sbeta, beta_sbeta_of, trace_product, trace_product_of};
use crate::double::{lit, zero, Double, E_7, E_M10, E_M20, E_M6, E_M9, NAN_BITS, THREE};
use crate::error::GamrsError;
use crate::inner::linalg::LinearSolver;
use crate::inner::solver::InnerSolver;
use crate::inner::{penalties_fit, GaussianInnerFit};
use crate::matrix::Matrix;
use crate::outer::minimize::OuterFit;
use crate::stats::{count_up, FitStats, FitStatsSnapshot};
use crate::traits::{is_square, DenseBackend};

verus! {

/// Options of the update.
#[derive(Clone, Copy, Debug, PartialEq, Eq, Structural)]
pub struct FellnerSchallOpts {
    /// Iteration limit.
    pub max_iters: usize,
    /// Largest change of a log parameter below which the update converged.
    pub tol: Double,
    /// Largest change of a log parameter in one iteration.
    pub log_step_clamp: Double,
    /// Least smoothing parameter.
    pub lambda_low: Double,
    /// Largest smoothing parameter.
    pub lambda_high: Double,
}

impl Default for FellnerSchallOpts {
    fn default() -> (o: FellnerSchallOpts)
        ensures
            o == (FellnerSchallOpts {
                max_iters: 200,
                tol: lit(E_M6),
                log_step_clamp: lit(THREE),
                lambda_low: lit(E_M9),
                lambda_high: lit(E_7),
            }),
    {
        FellnerSchallOpts {
            max_iters: 200,
            tol: lit(E_M6),
            log_step_clamp: lit(THREE),
            lambda_low: lit(E_M9),
            lambda_high: lit(E_7),
        }
    }
}

impl FellnerSchallOpts {
    /// The limits are ones that a number can be moved into.
    pub open spec fn wf<F: Arithmetic>(self) -> bool {
        &&& ln::<F>(self.lambda_low).at_most(ln::<F>(self.lambda_high))
        &&& self.log_step_clamp.neg_spec().at_most(self.log_step_clamp)
    }

    /// A log parameter moved between the limits.
    pub open spec fn kept<F: Arithmetic>(self, x: Double) -> Double {
        x.clamp_spec(ln::<F>(self.lambda_low), ln::<F>(self.lambda_high))
    }
}

/// What one iteration reads off the fit.
pub struct FsReading<'a> {
    /// Dispersion.
    pub phi: Double,
    /// Coefficients.
    pub beta: &'a Vec<Double>,
    /// Inverse of the penalised cross-product.
    pub a_inv: &'a Matrix,
}

/// The updated log parameter of one term:
/// `rho + ln(phi max(rank / lambda - tr(A^-1 S), 1e-10) / max(b'Sb, 1e-10))`, the
/// change clamped and the result moved between the limits.
pub open spec fn updated_of<F: Arithmetic>(
    o: FellnerSchallOpts,
    s: Seq<Seq<Double>>,
    rank: usize,
    rho: Double,
    phi: Double,
    beta: Seq<Double>,
    a_inv: Seq<Seq<Double>>,
) -> Double {
    let lambda = exp::<F>(rho).max_spec(lit(E_M20));
    let bsb = beta_sbeta_of::<F>(s, beta).max_spec(lit(E_M10));
    let num = minus::<F>(over::<F>(count::<F>(rank), lambda), trace_product_of::<F>(a_inv, s)).max_spec(
        lit(E_M10),
    );
    let change = ln::<F>(over::<F>(times::<F>(phi, num), bsb)).clamp_spec(
        o.log_step_clamp.neg_spec(),
        o.log_step_clamp,
    );
    o.kept::<F>(plus::<F>(rho, change))
}

/// The updated log parameter of one term.
pub fn updated<F: Arithmetic>(
    o: FellnerSchallOpts,
    s: &Matrix,
    rank: usize,
    rho: Double,
    read: &FsReading,
) -> (r: Double)
    requires
        lawful::<F>(),
        o.wf::<F>(),
        s.square(read.beta@.len()),
        read.a_inv.square(read.beta@.len()),
    ensures
        r == updated_of::<F>(o, s@, rank, rho, read.phi, read.beta@, read.a_inv@),
{
    let lambda: Double = exp::<F>(rho).max(lit(E_M20));
    let tr: Double = trace_product::<F>(read.a_inv, s);
    let bsb: Double = beta_sbeta::<F>(s, read.beta).max(lit(E_M10));
    let num: Double = minus::<F>(over::<F>(count::<F>(rank), lambda), tr).max(lit(E_M10));
    let ratio: Double = ln::<F>(over::<F>(times::<F>(read.phi, num), bsb));
    let change: Double = ratio.clamp(o.log_step_clamp.neg(), o.log_step_clamp);
    plus::<F>(rho, change).clamp(ln::<F>(o.lambda_low), ln::<F>(o.lambda_high))
}

/// One iteration: the fit, what was read off it, and the parameters after it.
pub struct FsStep<S: LinearSolver> {
    /// Fit at the parameters before.
    pub fit: GaussianInnerFit<S>,
    /// Dispersion.
    pub phi: Double,
    /// Inverse of the penalised cross-product.
    pub a_inv: Matrix,
    /// Parameters after the iteration.
    pub rho: Seq<Double>,
}

/// Largest change among the first `n` parameters.
pub open spec fn change_upto<F: Arithmetic>(after: Seq<Double>, before: Seq<Double>, n: nat) -> Double
    decreases n,
{
    if n == 0 {
        zero()
    } else {
        change_upto::<F>(after, before, (n - 1) as nat).max_spec(
            minus::<F>(after[n - 1], before[n - 1]).abs_spec(),
        )
    }
}

/// The parameters after some iterations.
pub open spec fn fs_point<S: LinearSolver>(rho0: Seq<Double>, steps: Seq<FsStep<S>>) -> Seq<Double> {
    if steps.len() == 0 {
        rho0
    } else {
        steps.last().rho
    }
}

/// The last iteration changed every parameter by less than the tolerance.
pub open spec fn fs_settled<F: Arithmetic, S: LinearSolver>(
    o: FellnerSchallOpts,
    rho0: Seq<Double>,
    steps: Seq<FsStep<S>>,
) -> bool {
    steps.len() > 0 && change_upto::<F>(
        steps.last().rho,
        fs_point::<S>(rho0, steps.drop_last()),
        rho0.len(),
    ).below(o.tol)
}

/// The coefficients that the next iteration starts from.
pub open spec fn fs_warm<'a, S: LinearSolver>(steps: Seq<FsStep<S>>) -> Option<&'a Vec<Double>> {
    if steps.len() == 0 {
        None
    } else {
        Some(&steps.last().fit.beta)
    }
}

/// A course of the update: each iteration takes one reweighted step from the
/// coefficients of the one before, and goes on only while it has not settled.
pub open spec fn fs_course<F: Arithmetic, D: DenseBackend, S: LinearSolver, I: InnerSolver<F, D, S>, P: Fn(
    &GaussianInnerFit<S>,
) -> Double>(
    inner: I,
    s_list: Seq<Matrix>,
    ranks: Seq<usize>,
    rho0: Seq<Double>,
    phi_fn: P,
    o: FellnerSchallOpts,
    steps: Seq<FsStep<S>>,
) -> bool
    decreases steps.len(),
{
    if steps.len() == 0 {
        true
    } else {
        let before = steps.drop_last();
        let at = fs_point::<S>(rho0, before);
        let s = steps.last();
        &&& fs_course::<F, D, S, I, P>(inner, s_list, ranks, rho0, phi_fn, o, before)
        &&& !fs_settled::<F, S>(o, rho0, before)
        &&& fs_stepped::<F, D, S, I, P>(inner, at, phi_fn, before, s)
        &&& s.rho == Seq::new(
            rho0.len(),
            |i: int|
                updated_of::<F>(o, s_list[i]@, ranks[i], at[i], s.phi, s.fit.beta@, s.a_inv@),
        )
    }
}

/// One reweighted step at `at`, and what was read off it.
pub open spec fn fs_stepped<F: Arithmetic, D: DenseBackend, S: LinearSolver, I: InnerSolver<F, D, S>, P: Fn(
    &GaussianInnerFit<S>,
) -> Double>(
    inner: I,
    at: Seq<Double>,
    phi_fn: P,
    before: Seq<FsStep<S>>,
    s: FsStep<S>,
) -> bool {
    &&& inner.steps(at, fs_warm::<S>(before), Ok(s.fit))
    &&& call_ensures(phi_fn, (&s.fit,), s.phi)
    &&& call_ensures(S::invert, (&s.fit.a_factor,), s.a_inv)
}

/// The counters after the iterations in `steps`.
pub open spec fn fs_counted<S: LinearSolver>(before: FitStatsSnapshot, steps: Seq<FsStep<S>>) -> FitStatsSnapshot
    decreases steps.len(),
{
    if steps.len() == 0 {
        before
    } else {
        fs_recorded(
            fs_begun(fs_counted::<S>(before, steps.drop_last())),
            steps.last().fit.iterations,
        )
    }
}

/// The counters once a further iteration has begun.
pub open spec fn fs_begun(b: FitStatsSnapshot) -> FitStatsSnapshot {
    FitStatsSnapshot { outer_iterations: count_up(b.outer_iterations, 1), ..b }
}

/// The counters once a step of `iterations` iterations was recorded.
pub open spec fn fs_recorded(b: FitStatsSnapshot, iterations: usize) -> FitStatsSnapshot {
    FitStatsSnapshot {
        inner_pirls_calls: count_up(b.inner_pirls_calls, 1),
        inner_pirls_iterations_total: count_up(b.inner_pirls_iterations_total, iterations),
        ..b
    }
}

/// The result of a course that settled or reached the iteration limit.
pub open spec fn fs_result<F: Arithmetic, S: LinearSolver>(
    o: FellnerSchallOpts,
    rho0: Seq<Double>,
    steps: Seq<FsStep<S>>,
    fit: OuterFit,
) -> bool {
    &&& fit.theta@ == fs_point::<S>(rho0, steps)
    &&& fit.value == zero()
    &&& fit.iterations == steps.len()
    &&& fit.converged == fs_settled::<F, S>(o, rho0, steps)
    &&& if fit.converged {
        fit.grad_norm == change_upto::<F>(
            steps.last().rho,
            fs_point::<S>(rho0, steps.drop_last()),
            rho0.len(),
        )
    } else {
        fit.grad_norm == lit(NAN_BITS) && steps.len() == o.max_iters
    }
}

/// The starting parameters moved between the limits.
pub open spec fn fs_start<F: Arithmetic>(o: FellnerSchallOpts, rho0: Seq<Double>) -> Seq<Double> {
    Seq::new(rho0.len(), |i: int| o.kept::<F>(rho0[i]))
}

/// A course of the update led to a result.
pub open spec fn fs_done<F: Arithmetic, D: DenseBackend, S: LinearSolver, I: InnerSolver<F, D, S>, P: Fn(
    &GaussianInnerFit<S>,
) -> Double>(
    inner: I,
    s_list: Seq<Matrix>,
    ranks: Seq<usize>,
    rho0: Seq<Double>,
    phi_fn: P,
    o: FellnerSchallOpts,
    stats: FitStatsSnapshot,
    fit: OuterFit,
    after: FitStatsSnapshot,
) -> bool {
    let start = fs_start::<F>(o, rho0);
    exists|steps: Seq<FsStep<S>>| #[trigger]
        fs_course::<F, D, S, I, P>(inner, s_list, ranks, start, phi_fn, o, steps) && fs_result::<F, S>(
            o,
            start,
            steps,
            fit,
        ) && after == fs_counted::<S>(stats, steps)
}

/// A reweighted step failed after a course of the update, or what it answered has
/// the wrong shape. The iteration that failed is counted as begun, and its step is
/// recorded where it answered.
pub open spec fn fs_failed<F: Arithmetic, D: DenseBackend, S: LinearSolver, I: InnerSolver<F, D, S>, P: Fn(
    &GaussianInnerFit<S>,
) -> Double>(
    inner: I,
    s_list: Seq<Matrix>,
    ranks: Seq<usize>,
    rho0: Seq<Double>,
    phi_fn: P,
    o: FellnerSchallOpts,
    p: nat,
    stats: FitStatsSnapshot,
    e: GamrsError,
    after: FitStatsSnapshot,
) -> bool {
    let start = fs_start::<F>(o, rho0);
    exists|steps: Seq<FsStep<S>>| #[trigger]
        fs_course::<F, D, S, I, P>(inner, s_list, ranks, start, phi_fn, o, steps) && !fs_settled::<F, S>(
            o,
            start,
            steps,
        ) && steps.len() < o.max_iters && ((inner.steps(
            fs_point::<S>(start, steps),
            fs_warm::<S>(steps),
            Err(e),
        ) && after == fs_begun(fs_counted::<S>(stats, steps))) || (e is InvalidParameter
            && fs_misfit::<F, D, S, I, P>(
            inner,
            fs_point::<S>(start, steps),
            phi_fn,
            steps,
            p,
            fs_begun(fs_counted::<S>(stats, steps)),
            after,
        )))
}

/// A step answered coefficients or an inverse of the wrong size, and was recorded.
pub open spec fn fs_misfit<F: Arithmetic, D: DenseBackend, S: LinearSolver, I: InnerSolver<F, D, S>, P: Fn(
    &GaussianInnerFit<S>,
) -> Double>(
    inner: I,
    at: Seq<Double>,
    phi_fn: P,
    steps: Seq<FsStep<S>>,
    p: nat,
    stats: FitStatsSnapshot,
    after: FitStatsSnapshot,
) -> bool {
    exists|s: FsStep<S>| #[trigger]
        fs_stepped::<F, D, S, I, P>(inner, at, phi_fn, steps, s) && (s.fit.beta@.len() != p
            || !s.a_inv.square(p)) && after == fs_recorded(stats, s.fit.iterations)
}

/// Runs the update until the parameters settle or the limit is reached. It ends
/// between the limits of the smoothing parameters.
pub fn fellner_schall_minimize<
    F: Arithmetic,
    D: DenseBackend,
    S: LinearSolver,
    I: InnerSolver<F, D, S>,
    P: Fn(&GaussianInnerFit<S>) -> Double,
>(
    inner: &I,
    s_list: &Vec<Matrix>,
    rank_s_list: &Vec<usize>,
    p: usize,
    rho0: &Vec<Double>,
    phi_fn: P,
    opts: FellnerSchallOpts,
    stats: &mut FitStats,
) -> (r: Result<OuterFit, GamrsError>)
    requires
        lawful::<F>(),
        opts.wf::<F>(),
        inner.ready(),
        inner.terms() == s_list@.len(),
        rho0@.len() == s_list@.len(),
        rank_s_list@.len() == s_list@.len(),
        penalties_fit(s_list@, p as nat),
        forall|f: GaussianInnerFit<S>| #[trigger] call_requires(phi_fn, (&f,)),
    ensures
        match r {
            Ok(fit) => fs_done::<F, D, S, I, P>(
                *inner,
                s_list@,
                rank_s_list@,
                rho0@,
                phi_fn,
                opts,
                old(stats)@,
                fit,
                final(stats)@,
            ) && fit.iterations <= opts.max_iters && (forall|i: int|
                0 <= i < fit.theta@.len() ==> opts.kept::<F>(#[trigger] fit.theta@[i]) == fit.theta@[i]),
            Err(e) => fs_failed::<F, D, S, I, P>(
                *inner,
                s_list@,
                rank_s_list@,
                rho0@,
                phi_fn,
                opts,
                p as nat,
                old(stats)@,
                e,
                final(stats)@,
            ),
        },
{
    let m: usize = s_list.len();
    let log_lo: Double = ln::<F>(opts.lambda_low);
    let log_hi: Double = ln::<F>(opts.lambda_high);
    let mut rho: Vec<Double> = Vec::new();
    for k in 0..m
        invariant
            opts.wf::<F>(),
            m == rho0@.len(),
            log_lo == ln::<F>(opts.lambda_low),
            log_hi == ln::<F>(opts.lambda_high),
            rho@.len() == k,
            forall|i: int| 0 <= i < k ==> #[trigger] rho@[i] == opts.kept::<F>(rho0@[i]),
    {
        rho.push(rho0[k].clamp(log_lo, log_hi));
    }
    let ghost start = fs_start::<F>(opts, rho0@);
    assert(rho@ =~= start);
    let mut warm: Option<Vec<Double>> = None;
    let ghost mut steps: Seq<FsStep<S>> = Seq::empty();
    let ghost counts = stats@;
    for iter in 0..opts.max_iters
        invariant
            lawful::<F>(),
            opts.wf::<F>(),
            inner.ready(),
            inner.terms() == s_list@.len(),
            rank_s_list@.len() == s_list@.len(),
            penalties_fit(s_list@, p as nat),
            forall|f: GaussianInnerFit<S>| #[trigger] call_requires(phi_fn, (&f,)),
            m == s_list@.len(),
            start == fs_start::<F>(opts, rho0@),
            start.len() == m,
            counts == old(stats)@,
            stats@ == fs_counted::<S>(counts, steps),
            steps.len() == iter,
            rho@ == fs_point::<S>(start, steps),
            rho@.len() == m,
            forall|i: int| 0 <= i < m ==> opts.kept::<F>(#[trigger] rho@[i]) == rho@[i],
            match warm {
                Some(b) => fs_warm::<S>(steps) == Some(&b),
                None => fs_warm::<S>(steps) is None,
            },
            !fs_settled::<F, S>(opts, start, steps),
            fs_course::<F, D, S, I, P>(
                *inner,
                s_list@,
                rank_s_list@,
                start,
                phi_fn,
                opts,
                steps,
            ),
    {
        stats.bump_outer();
        let w: Option<&Vec<Double>> = warm.as_ref();
        assert(w == fs_warm::<S>(steps));
        let fit: GaussianInnerFit<S> = match inner.fit_single_irls(&rho, w) {
            Ok(fit) => fit,
            Err(e) => return Err(e),
        };
        stats.record_pirls_call(fit.iterations);
        let phi: Double = phi_fn(&fit);
        let a_inv: Matrix = fit.a_inv();
        if fit.beta.len() != p || !is_square(&a_inv, p) {
            proof {
                let s = FsStep::<S> { fit, phi, a_inv, rho: rho@ };
                assert(fs_stepped::<F, D, S, I, P>(*inner, rho@, phi_fn, steps, s));
                assert(fs_misfit::<F, D, S, I, P>(
                    *inner,
                    rho@,
                    phi_fn,
                    steps,
                    p as nat,
                    fs_begun(fs_counted::<S>(counts, steps)),
                    stats@,
                ));
            }
            return Err(GamrsError::InvalidParameter("fit has the wrong size".to_owned()));
        }
        let mut max_change: Double = zero();
        let mut next: Vec<Double> = Vec::new();
        for i in 0..m
            invariant
                lawful::<F>(),
                opts.wf::<F>(),
                rank_s_list@.len() == s_list@.len(),
                m == s_list@.len(),
                penalties_fit(s_list@, p as nat),
                rho@.len() == m,
                fit.beta@.len() == p,
                a_inv.square(p as nat),
                next@.len() == i,
                forall|k: int|
                    0 <= k < i ==> #[trigger] next@[k] == updated_of::<F>(
                        opts,
                        s_list@[k]@,
                        rank_s_list@[k],
                        rho@[k],
                        phi,
                        fit.beta@,
                        a_inv@,
                    ),
                max_change == change_upto::<F>(next@, rho@, i as nat),
        {
            assert(s_list@[i as int].square(p as nat));
            let read: FsReading = FsReading { phi, beta: &fit.beta, a_inv: &a_inv };
            let x: Double = updated::<F>(opts, &s_list[i], rank_s_list[i], rho[i], &read);
            max_change = max_change.max(minus::<F>(x, rho[i]).abs());
            let ghost shorter = next@;
            next.push(x);
            proof {
                lemma_change_congruent::<F>(shorter, next@, rho@, i as nat);
            }
        }
        let ghost s = FsStep::<S> { fit, phi, a_inv, rho: next@ };
        let ghost grown = steps.push(s);
        proof {
            assert(grown.drop_last() =~= steps);
            assert(next@ =~= Seq::new(
                start.len(),
                |i: int|
                    updated_of::<F>(
                        opts,
                        s_list@[i]@,
                        rank_s_list@[i],
                        rho@[i],
                        s.phi,
                        s.fit.beta@,
                        s.a_inv@,
                    ),
            ));
            assert(fs_stepped::<F, D, S, I, P>(*inner, rho@, phi_fn, steps, s));
            assert forall|i: int| 0 <= i < m implies opts.kept::<F>(#[trigger] next@[i]) == next@[i] by {}
            assert(fs_counted::<S>(counts, grown) == stats@);
            assert(fs_course::<F, D, S, I, P>(
                *inner,
                s_list@,
                rank_s_list@,
                start,
                phi_fn,
                opts,
                grown,
            ));
            steps = grown;
        }
        rho = next;
        if max_change.lt(opts.tol) {
            let out: OuterFit = OuterFit {
                theta: rho,
                value: zero(),
                grad_norm: max_change,
                iterations: iter + 1,
                converged: true,
            };
            assert(fs_result::<F, S>(opts, start, steps, out));
            return Ok(out);
        }
        let kept: Vec<Double> = fit.beta;
        warm = Some(kept);
    }
    let out: OuterFit = OuterFit {
        theta: rho,
        value: zero(),
        grad_norm: lit(NAN_BITS),
        iterations: opts.max_iters,
        converged: false,
    };
    assert(fs_result::<F, S>(opts, start, steps, out));
    Ok(out)
}

/// The largest change depends only on the entries it looks at.
proof fn lemma_change_congruent<F: Arithmetic>(a: Seq<Double>, b: Seq<Double>, before: Seq<Double>, n: nat)
    requires
        n <= a.len(),
        n <= b.len(),
        forall|i: int| 0 <= i < n ==> a[i] == b[i],
    ensures
        change_upto::<F>(a, before, n) == change_upto::<F>(b, before, n),
    decreases n,
{
    if n > 0 {
        lemma_change_congruent::<F>(a, b, before, (n - 1) as nat);
    }
}

/// An update stays between the limits, whatever the fit was.
pub proof fn law_update_stays_between_the_limits<F: Arithmetic>(
    o: FellnerSchallOpts,
    s: Seq<Seq<Double>>,
    rank: usize,
    rho: Double,
    phi: Double,
    beta: Seq<Double>,
    a_inv: Seq<Seq<Double>>,
)
    requires
        o.wf::<F>(),
    ensures
        ({
            let x = updated_of::<F>(o, s, rank, rho, phi, beta, a_inv);
            &&& o.kept::<F>(x) == x
            &&& !x.nan() ==> ln::<F>(o.lambda_low).at_most(x) && x.at_most(ln::<F>(o.lambda_high))
        }),
{
}

} // verus!
