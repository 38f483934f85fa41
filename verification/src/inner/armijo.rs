//! Reweighted least squares with Armijo backtracking for the smoothed quantile
//! loss.

use std::marker::PhantomData;

use vstd::prelude::*;

use crate::arith::{lawful, minus, over, plus, times, total, Arithmetic};
use crate::dense::{
    add_penalty, add_penalty_of, dot, dot_of, mat_mul, mat_mul_of, mat_t_vec, mat_t_vec_of, mat_vec,
    mat_vec_of, relative_ridge, relative_ridge_of, weighted_xt, weighted_xt_of,
};
use crate::double::{half, lit, one, two, zero, Double, E_M10, E_M12, E_M3, E_M6, E_M7, INF_BITS};
use crate::error::GamrsError;
use crate::inner::linalg::{chol_solution, factored, CholeskySolver, LinearSolver};
use crate::inner::pirls::curvature::mean_step;
use crate::inner::{
    cholesky_with_safety_ridge, combined_s, combined_s_of, max_change, max_change_upto,
    penalties_fit, safety_ridged_of, GaussianInnerFit,
};
use crate::matrix::{fill_vec, Matrix};
use crate::text::join2;
use crate::traits::{chol_of, chol_refused, DenseBackend};

verus! {

/// The loss of one observation under the smoothed quantile loss.
#[derive(Clone, Copy, Debug, PartialEq, Eq, Structural)]
pub struct ElfParts {
    /// Deviance.
    pub deviance: Double,
    /// Sigmoid of the scaled residual.
    pub sigmoid: Double,
    /// Second derivative of the deviance in the mean.
    pub d2l_dmu: Double,
}

/// Parameters of the smoothed quantile loss.
#[derive(Clone, Copy, Debug, PartialEq, Eq, Structural)]
pub struct ElfParams {
    /// Quantile.
    pub tau: Double,
    /// Scale.
    pub sigma: Double,
    /// Smoothing.
    pub lambda: Double,
}

/// The smoothed quantile loss.
pub trait ElfLoss {
    /// The loss of one observation.
    fn elf_parts(y: Double, eta: Double, params: ElfParams) -> ElfParts;
}

/// Options of the iterations.
#[derive(Clone, Copy, Debug, PartialEq, Eq, Structural)]
pub struct ArmijoElfOpts {
    /// Iteration limit.
    pub max_iters: usize,
    /// Largest change of a coefficient below which the iterations converged.
    pub tol: Double,
    /// Backtracking steps of one iteration, at most.
    pub max_halvings: usize,
}

impl Default for ArmijoElfOpts {
    fn default() -> (o: ArmijoElfOpts)
        ensures
            o == (ArmijoElfOpts { max_iters: 50, tol: lit(E_M7), max_halvings: 20 }),
    {
        ArmijoElfOpts { max_iters: 50, tol: lit(E_M7), max_halvings: 20 }
    }
}

/// The quantile lies strictly between 0 and 1.
pub open spec fn tau_ok(p: ElfParams) -> bool {
    zero().below(p.tau) && p.tau.below(one())
}

/// Neither scale is known to be at most 0.
pub open spec fn scales_ok(p: ElfParams) -> bool {
    !p.sigma.at_most(zero()) && !p.lambda.at_most(zero())
}

/// `m` is a fixed text, then the decimal text of `x`.
pub open spec fn shows<F: Arithmetic>(head: Seq<char>, x: Double, m: Seq<char>) -> bool {
    exists|t: String| #[trigger] call_ensures(F::shown, (x,), t) && m == head + t@
}

/// The text that refuses a quantile.
pub open spec fn tau_refusal<F: Arithmetic>(p: ElfParams, m: Seq<char>) -> bool {
    shows::<F>("ELF τ must be in (0, 1); got "@, p.tau, m)
}

/// The text that refuses the scales.
pub open spec fn scale_refusal<F: Arithmetic>(p: ElfParams, m: Seq<char>) -> bool {
    exists|a: Seq<char>, b: Seq<char>|
        m == a + b && shows::<F>("ELF σ and λ must be > 0; got σ="@, p.sigma, a) && #[trigger] shows::<F>(
            " λ="@,
            p.lambda,
            b,
        ) && (#[trigger] a.len()) >= 0
}

/// Refuses a quantile outside (0, 1), then scales that are not positive.
pub fn check_params<F: Arithmetic>(p: ElfParams) -> (r: Result<(), GamrsError>)
    ensures
        r is Ok <==> tau_ok(p) && scales_ok(p),
        r matches Err(e) ==> (e matches GamrsError::InvalidParameter(m) && (if !tau_ok(p) {
            tau_refusal::<F>(p, m@)
        } else {
            scale_refusal::<F>(p, m@)
        })),
{
    if !(zero().lt(p.tau) && p.tau.lt(one())) {
        let t: String = F::shown(p.tau);
        let m: String = join2("ELF τ must be in (0, 1); got ", t.as_str());
        assert(tau_refusal::<F>(p, m@));
        return Err(GamrsError::InvalidParameter(m));
    }
    if p.sigma.le(zero()) || p.lambda.le(zero()) {
        let ts: String = F::shown(p.sigma);
        let tl: String = F::shown(p.lambda);
        let a: String = join2("ELF σ and λ must be > 0; got σ=", ts.as_str());
        let b: String = join2(" λ=", tl.as_str());
        let m: String = join2(a.as_str(), b.as_str());
        assert(shows::<F>("ELF σ and λ must be > 0; got σ="@, p.sigma, a@));
        assert(shows::<F>(" λ="@, p.lambda, b@));
        assert(a@.len() >= 0);
        assert(scale_refusal::<F>(p, m@));
        return Err(GamrsError::InvalidParameter(m));
    }
    Ok(())
}

/// `d` is the penalised deviance of coefficients for some answers of the loss:
/// infinite where an observation's deviance is not finite.
pub open spec fn elf_objective<F: Arithmetic, E: ElfLoss>(
    x: Seq<Seq<Double>>,
    y: Seq<Double>,
    params: ElfParams,
    s_total: Seq<Seq<Double>>,
    b: Seq<Double>,
    d: Double,
) -> bool {
    exists|parts: Seq<ElfParts>|
        #![trigger parts.len()]
        elf_read::<E>(y, mat_vec_of::<F>(x, b), params, parts) && d == (if forall|i: int|
            0 <= i < parts.len() ==> (#[trigger] parts[i]).deviance.finite() {
            plus::<F>(
                total::<F>(|i: int| parts[i].deviance, y.len()),
                times::<F>(one(), dot_of::<F>(b, mat_vec_of::<F>(s_total, b))),
            )
        } else {
            lit(INF_BITS)
        })
}

/// `parts` are answers of the loss for every observation.
pub open spec fn elf_read<E: ElfLoss>(
    y: Seq<Double>,
    eta: Seq<Double>,
    params: ElfParams,
    parts: Seq<ElfParts>,
) -> bool {
    parts.len() == y.len() && forall|i: int|
        0 <= i < y.len() ==> call_ensures(E::elf_parts, (y[i], eta[i], params), #[trigger] parts[i])
}

fn read_parts<E: ElfLoss>(y: &Vec<Double>, eta: &Vec<Double>, params: ElfParams) -> (parts: Vec<ElfParts>)
    requires
        eta@.len() == y@.len(),
    ensures
        elf_read::<E>(y@, eta@, params, parts@),
{
    let mut parts: Vec<ElfParts> = Vec::new();
    for i in 0..y.len()
        invariant
            eta@.len() == y@.len(),
            parts@.len() == i,
            forall|k: int|
                0 <= k < i ==> call_ensures(E::elf_parts, (y@[k], eta@[k], params), #[trigger] parts@[k]),
    {
        parts.push(E::elf_parts(y[i], eta[i], params));
    }
    parts
}

/// The penalised deviance of coefficients.
pub fn elf_pen_deviance<F: Arithmetic, E: ElfLoss>(
    x: &Matrix,
    y: &Vec<Double>,
    params: ElfParams,
    s_total: &Matrix,
    b: &Vec<Double>,
) -> (d: Double)
    requires
        lawful::<F>(),
        x.shape(y@.len(), b@.len()),
        s_total.square(b@.len()),
    ensures
        elf_objective::<F, E>(x@, y@, params, s_total@, b@, d),
{
    let eta: Vec<Double> = mat_vec::<F>(x, b);
    let parts: Vec<ElfParts> = read_parts::<E>(y, &eta, params);
    assert(parts@.len() == y@.len());
    let mut acc: Double = zero();
    for i in 0..parts.len()
        invariant
            lawful::<F>(),
            forall|k: int| 0 <= k < i ==> (#[trigger] parts@[k]).deviance.finite(),
            acc == total::<F>(|i: int| parts@[i].deviance, i as nat),
            eta@ == mat_vec_of::<F>(x@, b@),
            elf_read::<E>(y@, eta@, params, parts@),
            parts@.len() == y@.len(),
    {
        if !parts[i].deviance.is_finite() {
            assert(!parts@[i as int].deviance.finite());
            return lit(INF_BITS);
        }
        acc = plus::<F>(acc, parts[i].deviance);
    }
    let sb: Vec<Double> = mat_vec::<F>(s_total, b);
    plus::<F>(acc, times::<F>(one(), dot::<F>(b, &sb)))
}

/// Weight of an observation: `s (1 - s) / (sigma lambda)`.
pub open spec fn elf_weight_of<F: Arithmetic>(s: Double, p: ElfParams) -> Double {
    over::<F>(times::<F>(s, minus::<F>(one(), s)), times::<F>(p.sigma, p.lambda))
}

/// Working gradient of an observation: `(s - (1 - tau)) / sigma`.
pub open spec fn elf_slope_of<F: Arithmetic>(s: Double, p: ElfParams) -> Double {
    over::<F>(minus::<F>(s, minus::<F>(one(), p.tau)), p.sigma)
}

/// Weight of an observation.
pub fn elf_weight<F: Arithmetic>(s: Double, p: ElfParams) -> (r: Double)
    requires
        lawful::<F>(),
    ensures
        r == elf_weight_of::<F>(s, p),
{
    over::<F>(times::<F>(s, minus::<F>(one(), s)), times::<F>(p.sigma, p.lambda))
}

/// Working gradient of an observation.
pub fn elf_slope<F: Arithmetic>(s: Double, p: ElfParams) -> (r: Double)
    requires
        lawful::<F>(),
    ensures
        r == elf_slope_of::<F>(s, p),
{
    over::<F>(minus::<F>(s, minus::<F>(one(), p.tau)), p.sigma)
}

/// Final working weight, half the second derivative, and working response
/// `eta + g / w`, or `eta` where the weight is at most 1e-12.
pub open spec fn elf_final_row<F: Arithmetic>(eta: Double, part: ElfParts, p: ElfParams) -> (Double, Double) {
    let w = times::<F>(half(), part.d2l_dmu);
    (
        w,
        if lit(E_M12).below(w) {
            plus::<F>(eta, over::<F>(elf_slope_of::<F>(part.sigmoid, p), w))
        } else {
            eta
        },
    )
}

/// `d` is the derivative of one observation's weight along the linear predictor,
/// by a central difference, for some answers of the loss.
pub open spec fn elf_weight_slope<F: Arithmetic, E: ElfLoss>(
    y: Double,
    eta: Double,
    p: ElfParams,
    d: Double,
) -> bool {
    let h = mean_step::<F>(eta);
    exists|up: ElfParts, down: ElfParts| #[trigger]
        call_ensures(E::elf_parts, (y, plus::<F>(eta, h), p), up) && #[trigger] call_ensures(
            E::elf_parts,
            (y, minus::<F>(eta, h), p),
            down,
        ) && d == over::<F>(
            minus::<F>(times::<F>(half(), up.d2l_dmu), times::<F>(half(), down.d2l_dmu)),
            times::<F>(two(), h),
        )
}

/// Derivatives of the weights along the linear predictor.
pub fn elf_weight_slopes<F: Arithmetic, E: ElfLoss>(y: &Vec<Double>, eta: &Vec<Double>, p: ElfParams) -> (r: Vec<
    Double,
>)
    requires
        lawful::<F>(),
        eta@.len() == y@.len(),
    ensures
        r@.len() == y@.len(),
        forall|i: int|
            0 <= i < y@.len() ==> elf_weight_slope::<F, E>(y@[i], eta@[i], p, #[trigger] r@[i]),
{
    let mut r: Vec<Double> = Vec::new();
    for i in 0..y.len()
        invariant
            lawful::<F>(),
            eta@.len() == y@.len(),
            r@.len() == i,
            forall|k: int|
                0 <= k < i ==> elf_weight_slope::<F, E>(y@[k], eta@[k], p, #[trigger] r@[k]),
    {
        let h: Double = times::<F>(lit(E_M6), eta[i].abs().max(lit(E_M3)));
        let up: ElfParts = E::elf_parts(y[i], plus::<F>(eta[i], h), p);
        let down: ElfParts = E::elf_parts(y[i], minus::<F>(eta[i], h), p);
        let d: Double = over::<F>(
            minus::<F>(times::<F>(half(), up.d2l_dmu), times::<F>(half(), down.d2l_dmu)),
            times::<F>(two(), h),
        );
        assert(elf_weight_slope::<F, E>(y@[i as int], eta@[i as int], p, d));
        r.push(d);
    }
    r
}

/// Final working weight and response of an observation.
pub fn final_row<F: Arithmetic>(eta: Double, part: ElfParts, p: ElfParams) -> (r: (Double, Double))
    requires
        lawful::<F>(),
    ensures
        r == elf_final_row::<F>(eta, part, p),
{
    let w: Double = times::<F>(half(), part.d2l_dmu);
    if lit(E_M12).lt(w) {
        (w, plus::<F>(eta, over::<F>(elf_slope::<F>(part.sigmoid, p), w)))
    } else {
        (w, eta)
    }
}

/// The pattern of half of a power of two; of the smallest positive double it is
/// zero.
pub open spec fn halved_bits(bits: u64) -> u64 {
    if bits >= 0x0020_0000_0000_0000 {
        (bits - 0x0010_0000_0000_0000) as u64
    } else {
        bits / 2
    }
}

/// The step factor after `n` halvings, `2^-n`.
pub open spec fn factor_after(n: nat) -> Double
    decreases n,
{
    if n == 0 {
        one()
    } else {
        lit(halved_bits(factor_after((n - 1) as nat).bits))
    }
}

/// A backtracking step is accepted if its objective is finite and at most 1e-10
/// above the current one.
pub open spec fn armijo_accepts<F: Arithmetic>(obj_new: Double, obj_cur: Double) -> bool {
    obj_new.finite() && obj_new.at_most(plus::<F>(obj_cur, lit(E_M10)))
}

/// Whether a backtracking step is accepted.
pub fn accepts<F: Arithmetic>(obj_new: Double, obj_cur: Double) -> (b: bool)
    requires
        lawful::<F>(),
    ensures
        b == armijo_accepts::<F>(obj_new, obj_cur),
{
    obj_new.is_finite() && obj_new.le(plus::<F>(obj_cur, lit(E_M10)))
}

/// Control of the iterations.
#[derive(Clone, Copy, Debug, PartialEq, Eq, Structural)]
pub struct ArmijoRun {
    /// Options.
    pub opts: ArmijoElfOpts,
    /// Iterations done.
    pub iter: usize,
    /// Converged.
    pub converged: bool,
    /// No further iteration.
    pub stopped: bool,
}

impl ArmijoRun {
    /// Within the limit, and stopped where the limit is reached.
    pub open spec fn wf(self) -> bool {
        &&& self.iter <= self.opts.max_iters
        &&& !self.stopped ==> self.iter < self.opts.max_iters && !self.converged
        &&& self.converged ==> self.stopped
    }

    /// Before the first iteration.
    pub open spec fn started(opts: ArmijoElfOpts) -> ArmijoRun {
        ArmijoRun { opts, iter: 0, converged: false, stopped: opts.max_iters == 0 }
    }

    /// Before the first iteration.
    pub fn begin(opts: ArmijoElfOpts) -> (r: ArmijoRun)
        ensures
            r == ArmijoRun::started(opts),
            r.wf(),
    {
        ArmijoRun { opts, iter: 0, converged: false, stopped: opts.max_iters == 0 }
    }

    /// After an iteration. One without an accepted step has stagnated and counts
    /// as converged; so does one whose largest change is below the tolerance.
    pub open spec fn after(self, change: Option<Double>) -> ArmijoRun {
        let converged = match change {
            Some(c) => c.below(self.opts.tol),
            None => true,
        };
        ArmijoRun {
            iter: (self.iter + 1) as usize,
            converged,
            stopped: converged || self.iter + 1 >= self.opts.max_iters,
            ..self
        }
    }

    /// Records an iteration: the largest change of an accepted step, or `None`.
    pub fn advance(&mut self, change: Option<Double>)
        requires
            old(self).wf(),
            !old(self).stopped,
        ensures
            *final(self) == old(self).after(change),
            final(self).wf(),
    {
        let converged: bool = match change {
            Some(c) => c.lt(self.opts.tol),
            None => true,
        };
        self.iter = self.iter + 1;
        self.converged = converged;
        self.stopped = converged || self.iter >= self.opts.max_iters;
    }
}

/// A stagnated iteration ends the search as converged.
pub proof fn law_stagnation_converges(r: ArmijoRun)
    requires
        r.wf(),
        !r.stopped,
    ensures
        r.after(None).converged,
        r.after(None).stopped,
        r.after(None).iter == r.iter + 1,
{
}

/// The quantile solver. It runs with a single smooth term or several; prior
/// weights have no part in it.
pub struct ArmijoElfInner<E: ElfLoss> {
    /// Design matrix.
    pub x_design: Matrix,
    /// Response.
    pub y: Vec<Double>,
    /// One penalty per smooth term.
    pub s_list: Vec<Matrix>,
    /// Parameters of the loss.
    pub params: ElfParams,
    /// Options.
    pub opts: ArmijoElfOpts,
    /// Coefficients to start from; zeros without.
    pub beta_init: Option<Vec<Double>>,
    /// The loss.
    pub loss: PhantomData<E>,
}

/// `beta + alpha direction`, entry by entry.
pub open spec fn along_of<F: Arithmetic>(beta: Seq<Double>, alpha: Double, d: Seq<Double>) -> Seq<Double> {
    Seq::new(beta.len(), |j: int| plus::<F>(beta[j], times::<F>(alpha, d[j])))
}

fn along<F: Arithmetic>(beta: &Vec<Double>, alpha: Double, d: &Vec<Double>) -> (r: Vec<Double>)
    requires
        lawful::<F>(),
        d@.len() == beta@.len(),
    ensures
        r@ == along_of::<F>(beta@, alpha, d@),
{
    let entry = |j: usize| -> (v: Double)
        requires
            j < beta@.len(),
        ensures
            v == plus::<F>(beta@[j as int], times::<F>(alpha, d@[j as int])),
        { plus::<F>(beta[j], times::<F>(alpha, d[j])) };
    let r: Vec<Double> = fill_vec(beta.len(), entry);
    assert(r@ =~= along_of::<F>(beta@, alpha, d@));
    r
}

/// `a - b`, entry by entry.
pub open spec fn difference_of<F: Arithmetic>(a: Seq<Double>, b: Seq<Double>) -> Seq<Double> {
    Seq::new(a.len(), |j: int| minus::<F>(a[j], b[j]))
}

fn difference<F: Arithmetic>(a: &Vec<Double>, b: &Vec<Double>) -> (r: Vec<Double>)
    requires
        lawful::<F>(),
        b@.len() == a@.len(),
    ensures
        r@ == difference_of::<F>(a@, b@),
{
    let entry = |j: usize| -> (v: Double)
        requires
            j < a@.len(),
        ensures
            v == minus::<F>(a@[j as int], b@[j as int]),
        { minus::<F>(a[j], b[j]) };
    let r: Vec<Double> = fill_vec(a.len(), entry);
    assert(r@ =~= difference_of::<F>(a@, b@));
    r
}

/// The system of one iteration: weights, penalised cross-product and right-hand
/// side `X'(w eta + g)`, which stays defined where a weight vanishes.
pub struct ElfSystem {
    /// Weights.
    pub w: Vec<Double>,
    /// `X'WX + S`.
    pub a: Matrix,
    /// `X'(w eta + g)`.
    pub rhs: Vec<Double>,
}

/// `sys` is the system at a linear predictor for some answers of the loss.
pub open spec fn elf_system_of<F: Arithmetic, E: ElfLoss>(
    x: Seq<Seq<Double>>,
    p: nat,
    y: Seq<Double>,
    eta: Seq<Double>,
    params: ElfParams,
    s_total: Seq<Seq<Double>>,
    sys: ElfSystem,
) -> bool {
    exists|parts: Seq<ElfParts>|
        #![trigger parts.len()]
        elf_read::<E>(y, eta, params, parts) && sys.w@ == Seq::new(
            y.len(),
            |i: int| elf_weight_of::<F>(parts[i].sigmoid, params),
        ) && sys.a@ == add_penalty_of::<F>(
            mat_mul_of::<F>(weighted_xt_of::<F>(x, p, sys.w@), x, p),
            s_total,
            one(),
        ) && sys.rhs@ == mat_t_vec_of::<F>(
            x,
            p,
            Seq::new(
                y.len(),
                |i: int|
                    plus::<F>(
                        times::<F>(sys.w@[i], eta[i]),
                        elf_slope_of::<F>(parts[i].sigmoid, params),
                    ),
            ),
        )
}

/// Builds the system of one iteration.
pub fn elf_system<F: Arithmetic, E: ElfLoss>(
    x: &Matrix,
    y: &Vec<Double>,
    eta: &Vec<Double>,
    params: ElfParams,
    s_total: &Matrix,
) -> (sys: ElfSystem)
    requires
        lawful::<F>(),
        x.shape(y@.len(), x.cols as nat),
        eta@.len() == y@.len(),
        s_total.square(x.cols as nat),
    ensures
        elf_system_of::<F, E>(x@, x.cols as nat, y@, eta@, params, s_total@, sys),
        sys.w@.len() == y@.len(),
        sys.a.square(x.cols as nat),
        sys.rhs@.len() == x.cols,
{
    let parts: Vec<ElfParts> = read_parts::<E>(y, eta, params);
    let weigh = |i: usize| -> (v: Double)
        requires
            i < parts@.len(),
        ensures
            v == elf_weight_of::<F>(parts@[i as int].sigmoid, params),
        { elf_weight::<F>(parts[i].sigmoid, params) };
    let w: Vec<Double> = fill_vec(y.len(), weigh);
    assert(w@ =~= Seq::new(y@.len(), |i: int| elf_weight_of::<F>(parts@[i].sigmoid, params)));
    let target = |i: usize| -> (v: Double)
        requires
            i < parts@.len(),
        ensures
            v == plus::<F>(
                times::<F>(w@[i as int], eta@[i as int]),
                elf_slope_of::<F>(parts@[i as int].sigmoid, params),
            ),
        { plus::<F>(times::<F>(w[i], eta[i]), elf_slope::<F>(parts[i].sigmoid, params)) };
    let t: Vec<Double> = fill_vec(y.len(), target);
    assert(t@ =~= Seq::new(
        y@.len(),
        |i: int|
            plus::<F>(times::<F>(w@[i], eta@[i]), elf_slope_of::<F>(parts@[i].sigmoid, params)),
    ));
    let wxt: Matrix = weighted_xt::<F>(x, &w);
    let xtwx: Matrix = mat_mul::<F>(&wxt, x);
    let a: Matrix = add_penalty::<F>(&xtwx, s_total, one());
    let rhs: Vec<Double> = mat_t_vec::<F>(x, &t);
    assert(parts@.len() == y@.len());
    ElfSystem { w, a, rhs }
}

/// Coefficients and their objective.
pub struct ArmijoPoint {
    /// Coefficients.
    pub beta: Seq<Double>,
    /// Objective.
    pub obj: Double,
}

/// The point that backtracking returned.
pub open spec fn step_point(r: Option<(Vec<Double>, Double)>) -> Option<ArmijoPoint> {
    match r {
        Some(t) => Some(ArmijoPoint { beta: t.0@, obj: t.1 }),
        None => None,
    }
}

/// One iteration: the system, its factor, the proposed coefficients and the
/// point that backtracking towards them found, if any.
pub struct ArmijoStep {
    /// System.
    pub sys: ElfSystem,
    /// Lower factor of the ridged system.
    pub l: Matrix,
    /// Proposed coefficients.
    pub proposed: Seq<Double>,
    /// The point accepted on the way to them.
    pub taken: Option<ArmijoPoint>,
}

/// The point after some iterations.
pub open spec fn armijo_point(start: ArmijoPoint, steps: Seq<ArmijoStep>) -> ArmijoPoint
    decreases steps.len(),
{
    if steps.len() == 0 {
        start
    } else {
        match steps.last().taken {
            Some(t) => t,
            None => armijo_point(start, steps.drop_last()),
        }
    }
}

/// The weights of the last iteration that moved.
pub open spec fn armijo_weights(steps: Seq<ArmijoStep>) -> Option<Seq<Double>>
    decreases steps.len(),
{
    if steps.len() == 0 {
        None
    } else if steps.last().taken is Some {
        Some(steps.last().sys.w@)
    } else {
        armijo_weights(steps.drop_last())
    }
}

/// The control after some iterations.
pub open spec fn armijo_control<F: Arithmetic>(opts: ArmijoElfOpts, start: ArmijoPoint, steps: Seq<ArmijoStep>) -> ArmijoRun
    decreases steps.len(),
{
    if steps.len() == 0 {
        ArmijoRun::started(opts)
    } else {
        let before = armijo_point(start, steps.drop_last());
        armijo_control::<F>(opts, start, steps.drop_last()).after(
            match steps.last().taken {
                Some(t) => Some(max_change_upto::<F>(t.beta, before.beta, before.beta.len())),
                None => None,
            },
        )
    }
}

impl<E: ElfLoss> ArmijoElfInner<E> {
    /// The shapes agree.
    pub open spec fn wf(&self) -> bool {
        &&& self.x_design.shape(self.y@.len(), self.x_design.cols as nat)
        &&& penalties_fit(self.s_list@, self.x_design.cols as nat)
        &&& (self.beta_init matches Some(b) ==> b@.len() == self.x_design.cols)
    }

    /// Backtracking along a direction: the first of the halved steps whose
    /// objective does not rise, or `None` where none of the permitted number is
    /// accepted.
    pub open spec fn backtracked<F: Arithmetic>(
        &self,
        s_total: Seq<Seq<Double>>,
        at: ArmijoPoint,
        direction: Seq<Double>,
        taken: Option<ArmijoPoint>,
    ) -> bool {
        match taken {
            Some(t) => armijo_accepts::<F>(t.obj, at.obj) && elf_objective::<F, E>(
                self.x_design@,
                self.y@,
                self.params,
                s_total,
                t.beta,
                t.obj,
            ) && exists|k: nat| #[trigger]
                self.all_refused::<F>(s_total, at, direction, k) && k < self.opts.max_halvings && t.beta
                    == along_of::<F>(at.beta, factor_after(k), direction),
            None => self.all_refused::<F>(s_total, at, direction, self.opts.max_halvings as nat),
        }
    }

    /// The first `n` halved steps are not accepted.
    pub open spec fn all_refused<F: Arithmetic>(
        &self,
        s_total: Seq<Seq<Double>>,
        at: ArmijoPoint,
        direction: Seq<Double>,
        n: nat,
    ) -> bool {
        forall|k: nat|
            k < n ==> self.step_refused::<F>(
                s_total,
                along_of::<F>(at.beta, #[trigger] factor_after(k), direction),
                at.obj,
            )
    }

    fn backtrack<F: Arithmetic>(
        &self,
        s_total: &Matrix,
        beta: &Vec<Double>,
        direction: &Vec<Double>,
        obj_cur: Double,
    ) -> (r: Option<(Vec<Double>, Double)>)
        requires
            lawful::<F>(),
            self.wf(),
            s_total.square(self.x_design.cols as nat),
            beta@.len() == self.x_design.cols,
            direction@.len() == self.x_design.cols,
        ensures
            self.backtracked::<F>(
                s_total@,
                (ArmijoPoint { beta: beta@, obj: obj_cur }),
                direction@,
                step_point(r),
            ),
            r matches Some(t) ==> t.0@.len() == beta@.len(),
    {
        let ghost at = ArmijoPoint { beta: beta@, obj: obj_cur };
        let mut bits: u64 = 0x3ff0_0000_0000_0000;
        for k in 0..self.opts.max_halvings
            invariant
                lawful::<F>(),
                self.wf(),
                s_total.square(self.x_design.cols as nat),
                beta@.len() == self.x_design.cols,
                direction@.len() == self.x_design.cols,
                factor_after(k as nat) == lit(bits),
                at == (ArmijoPoint { beta: beta@, obj: obj_cur }),
                self.all_refused::<F>(s_total@, at, direction@, k as nat),
        {
            let b: Vec<Double> = along::<F>(beta, lit(bits), direction);
            let obj: Double = elf_pen_deviance::<F, E>(
                &self.x_design,
                &self.y,
                self.params,
                s_total,
                &b,
            );
            assert(b@ == along_of::<F>(beta@, factor_after(k as nat), direction@));
            if accepts::<F>(obj, obj_cur) {
                return Some((b, obj));
            }
            assert(self.step_refused::<F>(s_total@, b@, obj_cur));
            bits = if bits >= 0x0020_0000_0000_0000 {
                bits - 0x0010_0000_0000_0000
            } else {
                bits / 2
            };
        }
        None
    }

    /// Some answers of the loss give coefficients an objective that is not
    /// accepted.
    pub open spec fn step_refused<F: Arithmetic>(
        &self,
        s_total: Seq<Seq<Double>>,
        b: Seq<Double>,
        obj_cur: Double,
    ) -> bool {
        exists|obj: Double| #[trigger]
            elf_objective::<F, E>(self.x_design@, self.y@, self.params, s_total, b, obj)
                && !armijo_accepts::<F>(obj, obj_cur)
    }

    /// The penalised cross-product at weights `w`, with the safety ridge.
    pub open spec fn final_system<F: Arithmetic>(&self, s_total: Seq<Seq<Double>>, w: Seq<Double>) -> Seq<
        Seq<Double>,
    > {
        let p = self.x_design.cols as nat;
        relative_ridge_of::<F>(
            add_penalty_of::<F>(
                mat_mul_of::<F>(weighted_xt_of::<F>(self.x_design@, p, w), self.x_design@, p),
                s_total,
                one(),
            ),
            lit(E_M7),
        )
    }

    /// The point that the iterations start from: the given coefficients, or zeros.
    pub open spec fn starts<F: Arithmetic>(&self, s_total: Seq<Seq<Double>>, start: ArmijoPoint) -> bool {
        &&& start.beta == (match self.beta_init {
            Some(b) => b@,
            None => Seq::new(self.x_design.cols as nat, |j: int| zero()),
        })
        &&& elf_objective::<F, E>(
            self.x_design@,
            self.y@,
            self.params,
            s_total,
            start.beta,
            start.obj,
        )
    }

    /// `sys` is the system at coefficients.
    pub open spec fn system_at<F: Arithmetic>(
        &self,
        s_total: Seq<Seq<Double>>,
        beta: Seq<Double>,
        sys: ElfSystem,
    ) -> bool {
        elf_system_of::<F, E>(
            self.x_design@,
            self.x_design.cols as nat,
            self.y@,
            mat_vec_of::<F>(self.x_design@, beta),
            self.params,
            s_total,
            sys,
        )
    }

    /// An iteration from a point.
    pub open spec fn steps_to<F: Arithmetic, D: DenseBackend>(
        &self,
        s_total: Seq<Seq<Double>>,
        before: ArmijoPoint,
        s: ArmijoStep,
    ) -> bool {
        &&& self.system_at::<F>(s_total, before.beta, s.sys)
        &&& chol_of::<D>(safety_ridged_of::<F>(s.sys.a@), s.l)
        &&& chol_solution::<F>(s.l@, s.sys.rhs@, s.proposed)
        &&& self.backtracked::<F>(
            s_total,
            before,
            difference_of::<F>(s.proposed, before.beta),
            s.taken,
        )
    }

    /// A course of iterations, none of them after the control stopped.
    pub open spec fn course<F: Arithmetic, D: DenseBackend>(
        &self,
        s_total: Seq<Seq<Double>>,
        start: ArmijoPoint,
        steps: Seq<ArmijoStep>,
    ) -> bool
        decreases steps.len(),
    {
        if steps.len() == 0 {
            self.starts::<F>(s_total, start)
        } else {
            &&& self.course::<F, D>(s_total, start, steps.drop_last())
            &&& !armijo_control::<F>(self.opts, start, steps.drop_last()).stopped
            &&& self.steps_to::<F, D>(
                s_total,
                armijo_point(start, steps.drop_last()),
                steps.last(),
            )
        }
    }

    /// The fit that a course of iterations ends in. Its factor is taken at the
    /// weights of the last iteration that moved, or at the final ones.
    pub open spec fn fit_of<F: Arithmetic, D: DenseBackend, S: LinearSolver>(
        &self,
        s_total: Seq<Seq<Double>>,
        start: ArmijoPoint,
        steps: Seq<ArmijoStep>,
        fit: GaussianInnerFit<S>,
    ) -> bool {
        let control = armijo_control::<F>(self.opts, start, steps);
        &&& self.course::<F, D>(s_total, start, steps)
        &&& control.stopped
        &&& fit.iterations == steps.len()
        &&& fit.converged == control.converged
        &&& fit.n == self.y@.len()
        &&& fit.p == self.x_design.cols
        &&& fit.beta@ == armijo_point(start, steps).beta
        &&& fit.eta@ == mat_vec_of::<F>(self.x_design@, fit.beta@)
        &&& fit.mu@ == fit.eta@
        &&& fit.rss == fit.deviance
        &&& self.final_rows::<F>(
            fit.eta@,
            fit.working_weights@,
            fit.working_response@,
            fit.deviance,
        )
        &&& fit.a_weights@ == (match armijo_weights(steps) {
            Some(w) => w,
            None => fit.working_weights@,
        })
        &&& factored::<S>(self.final_system::<F>(s_total, fit.a_weights@), Ok(fit.a_factor))
        &&& fit.log_det_h_override is None
        &&& fit.tk_kkt_inputs is None
        &&& fit.x_design is Some
        &&& fit.x_design->0@ == self.x_design@
        &&& fit.x_design->0.cols == self.x_design.cols
        &&& fit.dw_deta is Some
        &&& fit.dw_deta->0@.len() == self.y@.len()
        &&& forall|i: int|
            0 <= i < self.y@.len() ==> elf_weight_slope::<F, E>(
                self.y@[i],
                fit.eta@[i],
                self.params,
                #[trigger] fit.dw_deta->0@[i],
            )
    }

    /// The iterations led to a fit.
    pub open spec fn fitted<F: Arithmetic, D: DenseBackend, S: LinearSolver>(
        &self,
        s_total: Seq<Seq<Double>>,
        fit: GaussianInnerFit<S>,
    ) -> bool {
        exists|start: ArmijoPoint, steps: Seq<ArmijoStep>| #[trigger]
            self.fit_of::<F, D, S>(s_total, start, steps, fit)
    }

    /// After a course of iterations the next one has no factor, or the final one
    /// has none.
    pub open spec fn stuck<F: Arithmetic, D: DenseBackend, S: LinearSolver>(
        &self,
        s_total: Seq<Seq<Double>>,
        start: ArmijoPoint,
        steps: Seq<ArmijoStep>,
        e: GamrsError,
    ) -> bool {
        let at = armijo_point(start, steps);
        &&& self.course::<F, D>(s_total, start, steps)
        &&& if armijo_control::<F>(self.opts, start, steps).stopped {
            exists|w: Seq<Double>| #[trigger]
                factored::<S>(self.final_system::<F>(s_total, w), Err(e)) && (match armijo_weights(
                    steps,
                ) {
                    Some(v) => w == v,
                    None => self.some_final_weights::<F>(at.beta, w),
                })
        } else {
            e matches GamrsError::SingularSystem(m) && exists|sys: ElfSystem, t: Seq<char>|
                self.system_at::<F>(s_total, at.beta, sys) && m@ == "ELF"@
                    + " Cholesky: "@ + t && #[trigger] chol_refused::<D>(
                    safety_ridged_of::<F>(sys.a@),
                    self.x_design.cols as nat,
                    t,
                )
        }
    }

    /// Final weights at coefficients for some answers of the loss.
    pub open spec fn some_final_weights<F: Arithmetic>(&self, beta: Seq<Double>, w: Seq<Double>) -> bool {
        exists|z: Seq<Double>, dev: Double| #[trigger]
            self.final_rows::<F>(mat_vec_of::<F>(self.x_design@, beta), w, z, dev)
    }

    /// Final weights, response and deviance at a linear predictor for some answers
    /// of the loss.
    pub open spec fn final_rows<F: Arithmetic>(
        &self,
        eta: Seq<Double>,
        w: Seq<Double>,
        z: Seq<Double>,
        dev: Double,
    ) -> bool {
        exists|parts: Seq<ElfParts>|
            #![trigger parts.len()]
            elf_read::<E>(self.y@, eta, self.params, parts) && w == Seq::new(
                self.y@.len(),
                |i: int| elf_final_row::<F>(eta[i], parts[i], self.params).0,
            ) && z == Seq::new(
                self.y@.len(),
                |i: int| elf_final_row::<F>(eta[i], parts[i], self.params).1,
            ) && dev == total::<F>(|i: int| parts[i].deviance, self.y@.len())
    }

    /// Why there is no fit: refused parameters, or the iterations got stuck.
    pub open spec fn fit_error<F: Arithmetic, D: DenseBackend, S: LinearSolver>(
        &self,
        s_total: Seq<Seq<Double>>,
        e: GamrsError,
    ) -> bool {
        if !tau_ok(self.params) {
            e matches GamrsError::InvalidParameter(m) && tau_refusal::<F>(self.params, m@)
        } else if !scales_ok(self.params) {
            e matches GamrsError::InvalidParameter(m) && scale_refusal::<F>(self.params, m@)
        } else {
            exists|start: ArmijoPoint, steps: Seq<ArmijoStep>| #[trigger]
                self.stuck::<F, D, S>(s_total, start, steps, e)
        }
    }

    /// The iterations from a given penalty. Refused parameters fail before
    /// anything is computed.
    pub fn armijo_loop<F: Arithmetic, D: DenseBackend, S: LinearSolver>(&self, s_total: &Matrix) -> (r: Result<
        GaussianInnerFit<S>,
        GamrsError,
    >)
        requires
            lawful::<F>(),
            self.wf(),
            s_total.square(self.x_design.cols as nat),
        ensures
            match r {
                Ok(fit) => tau_ok(self.params) && scales_ok(self.params) && self.fitted::<F, D, S>(
                    s_total@,
                    fit,
                ),
                Err(e) => self.fit_error::<F, D, S>(s_total@, e),
            },
    {
        match check_params::<F>(self.params) {
            Ok(()) => {},
            Err(e) => return Err(e),
        }
        let n: usize = self.y.len();
        let p: usize = self.x_design.cols;
        let mut beta: Vec<Double> = match &self.beta_init {
            Some(b) => {
                let c: Vec<Double> = b.clone();
                assert(c@ =~= b@);
                c
            },
            None => {
                let nought = |j: usize| -> (v: Double)
                    ensures
                        v == zero(),
                    { zero() };
                let c: Vec<Double> = fill_vec(p, nought);
                assert(c@ =~= Seq::new(p as nat, |j: int| zero()));
                c
            },
        };
        let mut obj_cur: Double = elf_pen_deviance::<F, E>(
            &self.x_design,
            &self.y,
            self.params,
            s_total,
            &beta,
        );
        let mut run: ArmijoRun = ArmijoRun::begin(self.opts);
        let mut last_w: Option<Vec<Double>> = None;
        let ghost start = ArmijoPoint { beta: beta@, obj: obj_cur };
        let ghost mut steps: Seq<ArmijoStep> = Seq::empty();
        while !run.stopped
            invariant
                lawful::<F>(),
                self.wf(),
                n == self.y@.len(),
                p == self.x_design.cols,
                s_total.square(p as nat),
                beta@.len() == p,
                run.wf(),
                tau_ok(self.params),
                scales_ok(self.params),
                run == armijo_control::<F>(self.opts, start, steps),
                armijo_point(start, steps) == (ArmijoPoint { beta: beta@, obj: obj_cur }),
                self.course::<F, D>(s_total@, start, steps),
                steps.len() == run.iter,
                run.opts == self.opts,
                match last_w {
                    Some(w) => w@.len() == n && armijo_weights(steps) == Some(w@),
                    None => armijo_weights(steps) is None,
                },
            decreases self.opts.max_iters - run.iter,
        {
            let eta: Vec<Double> = mat_vec::<F>(&self.x_design, &beta);
            let sys: ElfSystem = elf_system::<F, E>(
                &self.x_design,
                &self.y,
                &eta,
                self.params,
                s_total,
            );
            let l: Matrix = match cholesky_with_safety_ridge::<F, D>(&sys.a, "ELF") {
                Ok(l) => l,
                Err(e) => {
                    assert(self.system_at::<F>(s_total@, beta@, sys));
                    assert(self.stuck::<F, D, S>(s_total@, start, steps, e));
                    return Err(e);
                },
            };
            let proposed: Vec<Double> = CholeskySolver::solve::<F>(&l, &sys.rhs);
            let direction: Vec<Double> = difference::<F>(&proposed, &beta);
            let step: Option<(Vec<Double>, Double)> = self.backtrack::<F>(
                s_total,
                &beta,
                &direction,
                obj_cur,
            );
            let change: Option<Double> = match &step {
                Some(s) => Some(max_change::<F>(&s.0, &beta)),
                None => None,
            };
            proof {
                let taken = step_point(step);
                let s = ArmijoStep { sys, l, proposed: proposed@, taken };
                assert(steps.push(s).drop_last() =~= steps);
                assert(steps.push(s).last() == s);
                assert(self.steps_to::<F, D>(
                    s_total@,
                    ArmijoPoint { beta: beta@, obj: obj_cur },
                    s,
                ));
                steps = steps.push(s);
            }
            run.advance(change);
            match step {
                Some((b, obj)) => {
                    beta = b;
                    obj_cur = obj;
                    last_w = Some(sys.w);
                },
                None => {},
            }
        }
        let eta: Vec<Double> = mat_vec::<F>(&self.x_design, &beta);
        let mu: Vec<Double> = eta.clone();
        assert(mu@ =~= eta@);
        let parts: Vec<ElfParts> = read_parts::<E>(&self.y, &eta, self.params);
        let mut working_weights: Vec<Double> = Vec::new();
        let mut working_response: Vec<Double> = Vec::new();
        let mut deviance: Double = zero();
        for i in 0..n
            invariant
                lawful::<F>(),
                n == self.y@.len(),
                eta@.len() == n,
                parts@.len() == n,
                working_weights@.len() == i,
                working_response@.len() == i,
                forall|k: int|
                    0 <= k < i ==> #[trigger] working_weights@[k] == elf_final_row::<F>(
                        eta@[k],
                        parts@[k],
                        self.params,
                    ).0,
                forall|k: int|
                    0 <= k < i ==> #[trigger] working_response@[k] == elf_final_row::<F>(
                        eta@[k],
                        parts@[k],
                        self.params,
                    ).1,
                deviance == total::<F>(|i: int| parts@[i].deviance, i as nat),
        {
            let (w, z) = final_row::<F>(eta[i], parts[i], self.params);
            working_weights.push(w);
            working_response.push(z);
            deviance = plus::<F>(deviance, parts[i].deviance);
        }
        assert(working_weights@ =~= Seq::new(
            self.y@.len(),
            |i: int| elf_final_row::<F>(eta@[i], parts@[i], self.params).0,
        ));
        assert(working_response@ =~= Seq::new(
            self.y@.len(),
            |i: int| elf_final_row::<F>(eta@[i], parts@[i], self.params).1,
        ));
        assert(parts@.len() == self.y@.len());
        assert(self.final_rows::<F>(
            eta@,
            working_weights@,
            working_response@,
            deviance,
        ));
        let a_weights: Vec<Double> = match last_w {
            Some(w) => w,
            None => {
                assert(self.some_final_weights::<F>(beta@, working_weights@));
                let w: Vec<Double> = working_weights.clone();
                assert(w@ =~= working_weights@);
                w
            },
        };
        let wxt: Matrix = weighted_xt::<F>(&self.x_design, &a_weights);
        let xtwx: Matrix = mat_mul::<F>(&wxt, &self.x_design);
        let a: Matrix = add_penalty::<F>(&xtwx, s_total, one());
        let lifted: Matrix = relative_ridge::<F>(&a, lit(E_M7));
        let a_factor: S::Factorization = match S::factorize(&lifted) {
            Ok(f) => f,
            Err(e) => {
                assert(factored::<S>(lifted@, Err(e)));
                assert(factored::<S>(self.final_system::<F>(s_total@, a_weights@), Err(e)));
                assert(self.stuck::<F, D, S>(s_total@, start, steps, e));
                return Err(e);
            },
        };
        assert(factored::<S>(lifted@, Ok(a_factor)));
        let slopes: Vec<Double> = elf_weight_slopes::<F, E>(&self.y, &eta, self.params);
        let fit: GaussianInnerFit<S> = GaussianInnerFit {
            beta,
            eta,
            mu,
            working_weights,
            working_response,
            deviance,
            rss: deviance,
            n,
            p,
            iterations: run.iter,
            converged: run.converged,
            a_factor,
            a_weights,
            log_det_h_override: None,
            tk_kkt_inputs: None,
            dw_deta: Some(slopes),
            x_design: Some(self.x_design.copy()),
        };
        assert(self.fit_of::<F, D, S>(s_total@, start, steps, fit));
        Ok(fit)
    }

    /// The fit at log smoothing parameters `rho`.
    pub fn fit<F: Arithmetic, D: DenseBackend, S: LinearSolver>(&self, rho: &Vec<Double>) -> (r: Result<
        GaussianInnerFit<S>,
        GamrsError,
    >)
        requires
            lawful::<F>(),
            self.wf(),
            rho@.len() == self.s_list@.len(),
        ensures
            match r {
                Ok(fit) => tau_ok(self.params) && scales_ok(self.params) && self.fitted::<F, D, S>(
                    combined_s_of::<F>(self.s_list@, rho@, self.x_design.cols as nat),
                    fit,
                ),
                Err(e) => self.fit_error::<F, D, S>(
                    combined_s_of::<F>(self.s_list@, rho@, self.x_design.cols as nat),
                    e,
                ),
            },
    {
        let s_total: Matrix = combined_s::<F>(&self.s_list, rho, self.x_design.cols);
        self.armijo_loop::<F, D, S>(&s_total)
    }
}

} // verus!
