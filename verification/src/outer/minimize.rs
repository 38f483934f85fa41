//! The outer search driven to its end: builds steps, probes the score and moves,
//! as [`NewtonRun`] decides.

use vstd::prelude::*;

use crate::arith::{lawful, minus, plus, times, Arithmetic};
use crate::dense::vec_plus_of;
use crate::double::{inf_norm, inf_norm_spec, lit, one, zero, Double};
use crate::error::GamrsError;
use crate::inner::pirls::curvature::ObservedPdCounts;
use crate::matrix::Matrix;
use crate::outer::newton::{
    law_bounds_are_kept, law_every_event_uses_budget, trial_point, trial_step, trial_step_of,
    Candidate, NewtonAction, NewtonEvent, NewtonRun,
};
use crate::outer::step::{
    active_axes, active_spec, bounds_ordered, cap_spec, cap_step, clamp_point, clamp_to_box,
    concave_bound_jump, descent_spec, failure_is_optimum, jump_at, jump_step, l2_norm, l2_norm_of,
    law_active_axes, law_clamp_lands_in_the_box, model_error_of, newton_direction,
    newton_direction_of, pair_ordered, pairs_ordered, project_onto_box, project_spec,
    quadratic_model_error, steepest_descent_dir, step_failure_is_convergence, Bounds, Spectrum,
    StandingPoint, DIM_TOL_REL, MGCV_CONV_TOL,
};
use crate::outer::{NewtonOpts, NewtonWithHalving};
use crate::stats::FitStats;
use crate::traits::{checked_eigh, eigh_answered, is_square, DenseBackend};

verus! {

/// A score with its derivatives at a point.
pub struct Evaluation {
    /// Score.
    pub value: Double,
    /// Gradient.
    pub grad: Vec<Double>,
    /// Hessian.
    pub hess: Matrix,
}

impl Evaluation {
    /// The derivatives are those of `n` parameters.
    pub open spec fn fits(&self, n: nat) -> bool {
        self.grad@.len() == n && self.hess.square(n)
    }
}

/// What a score remembers from one call to the next.
pub struct ScoreMemory<A> {
    /// The state left behind at the last accepted point.
    pub accepted: Option<A>,
    /// Counters, where the score keeps any.
    pub stats: Option<FitStats>,
    /// How often observed curvature was usable in a score.
    pub observed: ObservedPdCounts,
}

/// A score that the outer search can minimise. What it remembers is handed in
/// and out. A score says of itself what its answers are; by default nothing.
pub trait ScoreDerivatives<F: Arithmetic>: Sized {
    /// What it keeps of an accepted point.
    type Accepted;

    /// The score is in order.
    open spec fn ready(&self) -> bool {
        true
    }

    /// The score takes `n` parameters.
    open spec fn takes(&self, n: nat) -> bool {
        true
    }

    /// What the score at a point comes to, and what is remembered after it.
    open spec fn values(
        &self,
        memory: ScoreMemory<Self::Accepted>,
        theta: Seq<Double>,
        r: Result<Double, GamrsError>,
        after: ScoreMemory<Self::Accepted>,
    ) -> bool {
        true
    }

    /// What score and derivatives at a point come to, and what is remembered
    /// after them.
    open spec fn evaluates(
        &self,
        memory: ScoreMemory<Self::Accepted>,
        theta: Seq<Double>,
        r: Result<Evaluation, GamrsError>,
        after: ScoreMemory<Self::Accepted>,
    ) -> bool {
        true
    }

    /// What the caps and bounds of the axes are.
    open spec fn limited(&self, caps: Option<Vec<Double>>, bnds: Option<Bounds>) -> bool {
        true
    }

    /// The score at a point.
    fn value(&self, memory: ScoreMemory<Self::Accepted>, theta: &Vec<Double>) -> (r: (Result<Double, GamrsError>, ScoreMemory<
        Self::Accepted,
    >))
        requires
            self.ready(),
            self.takes(theta@.len()),
        ensures
            self.values(memory, theta@, r.0, r.1),
    ;

    /// The score and its derivatives at a point.
    fn value_grad_hess(&self, memory: ScoreMemory<Self::Accepted>, theta: &Vec<Double>) -> (r: (Result<
        Evaluation,
        GamrsError,
    >, ScoreMemory<Self::Accepted>))
        requires
            self.ready(),
            self.takes(theta@.len()),
        ensures
            self.evaluates(memory, theta@, r.0, r.1),
    ;

    /// Largest step on each axis, and the box of the parameters, where the score
    /// sets any.
    fn axis_limits(&self) -> (r: (Option<Vec<Double>>, Option<Bounds>))
        requires
            self.ready(),
        ensures
            self.limited(r.0, r.1),
    ;
}

/// The result of an outer search.
pub struct OuterFit {
    /// Last point.
    pub theta: Vec<Double>,
    /// Score there.
    pub value: Double,
    /// Largest absolute gradient component.
    pub grad_norm: Double,
    /// Iterations.
    pub iterations: usize,
    /// Whether the point counts as an optimum.
    pub converged: bool,
}

/// A search between two events, with everything the next one is made from.
pub struct Search<A> {
    /// Control.
    pub run: NewtonRun,
    /// What to do next.
    pub next: NewtonAction,
    /// Current point.
    pub theta: Vec<Double>,
    /// Gradient in use.
    pub g: Vec<Double>,
    /// Hessian in use.
    pub h: Matrix,
    /// Newton direction of this iteration.
    pub raw: Vec<Double>,
    /// The direction projected onto the box and capped.
    pub capped: Vec<Double>,
    /// The capped step with its jumps.
    pub jump: Vec<Double>,
    /// Steepest-descent direction.
    pub descent: Vec<Double>,
    /// Last trial step.
    pub last: Vec<Double>,
    /// Last trial point.
    pub trial: Vec<Double>,
    /// What the score remembers.
    pub memory: ScoreMemory<A>,
}

impl<A> Search<A> {
    /// The vectors have the length of the point.
    pub open spec fn fits(&self) -> bool {
        let n = self.theta@.len();
        &&& self.run.dim == n
        &&& self.g@.len() == n
        &&& self.h.square(n)
        &&& self.raw@.len() == n
        &&& self.capped@.len() == n
        &&& self.jump@.len() == n
        &&& self.descent@.len() == n
        &&& self.last@.len() == n
        &&& self.trial@.len() == n
    }

    /// The control waits for what is to be done next.
    pub open spec fn waits(&self) -> bool {
        &&& self.run.wf()
        &&& match self.next {
            NewtonAction::BuildStep => self.run.phase is Build,
            NewtonAction::Probe(_) => self.run.phase is Jump || self.run.phase is Full
                || self.run.phase is Halve,
            NewtonAction::Refresh => self.run.phase is Refresh,
            NewtonAction::Classify => self.run.phase is Classify,
            NewtonAction::Finish => self.run.phase is Done,
        }
    }

    /// Point, derivatives and steps are those of another search.
    pub open spec fn same_point(&self, s: Search<A>) -> bool {
        &&& self.theta == s.theta
        &&& self.g == s.g
        &&& self.h == s.h
    }

    /// The steps of this iteration are those of another search.
    pub open spec fn same_steps(&self, s: Search<A>) -> bool {
        &&& self.raw == s.raw
        &&& self.capped == s.capped
        &&& self.jump == s.jump
        &&& self.descent == s.descent
    }

    /// The tolerance under which an axis counts as dead.
    pub open spec fn dim_tol_of<F: Arithmetic>(&self) -> Double {
        times::<F>(plus::<F>(self.run.value.abs_spec(), one()), lit(DIM_TOL_REL))
    }
}

/// The counters of `m` after an event, all else unchanged.
pub open spec fn recorded<F: Arithmetic, A>(
    run: NewtonRun,
    e: NewtonEvent,
    m: ScoreMemory<A>,
    after: ScoreMemory<A>,
) -> bool {
    &&& after.accepted == m.accepted
    &&& after.observed == m.observed
    &&& match m.stats {
        Some(st) => after.stats matches Some(t) && t@ == run.counted::<F>(e, st@),
        None => after.stats is None,
    }
}

/// Some axis of the capped step can jump to a bound, and `jump` is the step with
/// those jumps.
pub open spec fn jumps<F: Arithmetic, A>(s: Search<A>, capped: Seq<Double>, bnds: Option<Bounds>, jump: Seq<Double>) -> bool {
    match bnds {
        Some(b) => (exists|i: int|
            0 <= i < s.g@.len() && (#[trigger] jump_at::<F>(
                s.theta@,
                s.g@,
                s.h@,
                capped,
                b@,
                s.dim_tol_of::<F>(),
                i,
            )) is Some) && jump == jump_step::<F>(
            s.theta@,
            s.g@,
            s.h@,
            capped,
            b@,
            s.dim_tol_of::<F>(),
        ),
        None => false,
    }
}

/// No axis of the capped step can jump to a bound.
pub open spec fn no_jump<F: Arithmetic, A>(s: Search<A>, capped: Seq<Double>, bnds: Option<Bounds>) -> bool {
    match bnds {
        Some(b) => forall|i: int|
            0 <= i < s.g@.len() ==> (#[trigger] jump_at::<F>(
                s.theta@,
                s.g@,
                s.h@,
                capped,
                b@,
                s.dim_tol_of::<F>(),
                i,
            )) is None,
        None => true,
    }
}

/// The steps of an iteration were built at `s`: the Newton direction on the
/// active axes, projected onto the box, capped, and with its jumps.
pub open spec fn builds<F: Arithmetic, D: DenseBackend, A>(
    caps: Option<Vec<Double>>,
    bnds: Option<Bounds>,
    s: Search<A>,
    e: NewtonEvent,
    t: Search<A>,
) -> bool {
    let active = active_spec(s.g@, s.h@, s.dim_tol_of::<F>());
    &&& newton_direction_of::<F, D>(s.g@, s.h@, active, s.run.opts.hess_floor, t.raw@)
    &&& t.capped@ == cap_spec::<F>(
        project_spec::<F>(t.raw@, s.theta@, borrowed(bnds)),
        borrowed(caps),
        s.run.opts.max_step,
    )
    &&& t.descent@ == descent_spec::<F>(s.g@)
    &&& t.same_point(s)
    &&& t.last == s.last
    &&& t.trial == s.trial
    &&& e matches NewtonEvent::StepBuilt { jump, descent } && (if jump {
        jumps::<F, A>(s, t.capped@, bnds, t.jump@)
    } else {
        no_jump::<F, A>(s, t.capped@, bnds) && t.jump@ == t.capped@
    }) && descent == zero().below(l2_norm_of::<F>(t.descent@))
}

/// An optional value, borrowed.
pub open spec fn borrowed<'a, T>(o: Option<T>) -> Option<&'a T> {
    match o {
        Some(v) => Some(&v),
        None => None,
    }
}

/// The trial point of a candidate was probed.
pub open spec fn probes<F: Arithmetic, S: ScoreDerivatives<F>>(
    score: S,
    bnds: Option<Bounds>,
    s: Search<S::Accepted>,
    c: Candidate,
    e: NewtonEvent,
    m: ScoreMemory<S::Accepted>,
    t: Search<S::Accepted>,
) -> bool {
    &&& t.last@ == trial_step_of::<F>(c, s.capped@, s.jump@, s.last@, s.descent@)
    &&& t.trial@ == clamp_point(vec_plus_of::<F>(s.theta@, t.last@), borrowed(bnds))
    &&& t.same_point(s)
    &&& t.same_steps(s)
    &&& exists|r: Result<Double, GamrsError>| #[trigger]
        score.values(s.memory, t.trial@, r, m) && e == (match r {
            Ok(x) => NewtonEvent::Probed {
                trial: Some(x),
                model_error: model_error_of::<F>(
                    s.g@,
                    s.h@,
                    t.last@,
                    minus::<F>(x, s.run.value),
                    plus::<F>(s.run.value.abs_spec(), one()),
                    lit(MGCV_CONV_TOL),
                ),
            },
            Err(_) => NewtonEvent::Probed { trial: None, model_error: zero() },
        })
}

/// The search moved to the last trial point and evaluated it. Where that fails,
/// or the derivatives are not those of as many parameters, it keeps those it
/// has.
pub open spec fn refreshes<F: Arithmetic, S: ScoreDerivatives<F>>(
    score: S,
    s: Search<S::Accepted>,
    e: NewtonEvent,
    m: ScoreMemory<S::Accepted>,
    t: Search<S::Accepted>,
) -> bool {
    &&& t.theta@ == s.trial@
    &&& t.same_steps(s)
    &&& t.last == s.last
    &&& t.trial == s.trial
    &&& exists|r: Result<Evaluation, GamrsError>| #[trigger]
        score.evaluates(s.memory, s.trial@, r, m) && (match r {
            Ok(ev) => if ev.fits(s.theta@.len()) {
                t.g == ev.grad && t.h == ev.hess && e == (NewtonEvent::Refreshed {
                    value: ev.value,
                    grad_norm: inf_norm_spec(ev.grad@),
                })
            } else {
                t.g == s.g && t.h == s.h && e == NewtonEvent::RefreshFailed
            },
            Err(_) => t.g == s.g && t.h == s.h && e == NewtonEvent::RefreshFailed,
        })
}

/// The point was classified, with the decomposition that the backend gives of the
/// Hessian.
pub open spec fn classifies<F: Arithmetic, D: DenseBackend, A>(
    bnds: Option<Bounds>,
    s: Search<A>,
    e: NewtonEvent,
    t: Search<A>,
) -> bool {
    &&& t.same_point(s)
    &&& t.same_steps(s)
    &&& t.last == s.last
    &&& t.trial == s.trial
    &&& exists|sp: Option<Spectrum>| #[trigger]
        eigh_answered::<D>(s.h@, sp) && e == NewtonEvent::Classified(
            failure_is_optimum::<F>(&standing(s, bnds, sp)),
        )
}

/// What the classification looks at.
pub open spec fn standing<A>(s: Search<A>, bnds: Option<Bounds>, sp: Option<Spectrum>) -> StandingPoint<'static> {
    StandingPoint {
        theta: &s.theta,
        g: &s.g,
        raw_step: &s.raw,
        bnds: borrowed(bnds),
        spectrum: borrowed(sp),
        v: s.run.value,
        grad_norm: s.run.grad_norm,
    }
}

/// What was to be done next at `s` was done, and led to `t`.
pub open spec fn happened<F: Arithmetic, D: DenseBackend, S: ScoreDerivatives<F>>(
    score: S,
    caps: Option<Vec<Double>>,
    bnds: Option<Bounds>,
    s: Search<S::Accepted>,
    e: NewtonEvent,
    m: ScoreMemory<S::Accepted>,
    t: Search<S::Accepted>,
) -> bool {
    match s.next {
        NewtonAction::BuildStep => m == s.memory && builds::<F, D, S::Accepted>(caps, bnds, s, e, t),
        NewtonAction::Probe(c) => probes::<F, S>(score, bnds, s, c, e, m, t),
        NewtonAction::Refresh => refreshes::<F, S>(score, s, e, m, t),
        NewtonAction::Classify => m == s.memory && classifies::<F, D, S::Accepted>(bnds, s, e, t),
        NewtonAction::Finish => false,
    }
}

/// `t` follows `s`: what was to be done was done, and the control took the event.
pub open spec fn follows<F: Arithmetic, D: DenseBackend, S: ScoreDerivatives<F>>(
    score: S,
    caps: Option<Vec<Double>>,
    bnds: Option<Bounds>,
    s: Search<S::Accepted>,
    t: Search<S::Accepted>,
) -> bool {
    exists|e: NewtonEvent, m: ScoreMemory<S::Accepted>| #[trigger]
        happened::<F, D, S>(score, caps, bnds, s, e, m, t) && (t.run, t.next) == s.run.after::<F>(e)
            && recorded::<F, S::Accepted>(s.run, e, m, t.memory)
}

/// The search began at the starting point, moved into the box and evaluated.
pub open spec fn begins<F: Arithmetic, S: ScoreDerivatives<F>>(
    score: S,
    opts: NewtonOpts,
    bnds: Option<Bounds>,
    theta0: Seq<Double>,
    m0: ScoreMemory<S::Accepted>,
    s: Search<S::Accepted>,
) -> bool {
    &&& s.theta@ == clamp_point(theta0, borrowed(bnds))
    &&& exists|ev: Evaluation, m: ScoreMemory<S::Accepted>|
        #[trigger] score.evaluates(m0, s.theta@, Ok(ev), m) && (theta0.len() > 0 ==> ev.fits(
            theta0.len(),
        )) && s.g == ev.grad && s.h == ev.hess && {
            let e = NewtonEvent::Evaluated { value: ev.value, grad_norm: inf_norm_spec(ev.grad@) };
            let run = NewtonRun::started(opts, theta0.len() as usize);
            (s.run, s.next) == run.after::<F>(e) && recorded::<F, S::Accepted>(run, e, m, s.memory)
        }
}

/// A course of a search.
pub open spec fn course<F: Arithmetic, D: DenseBackend, S: ScoreDerivatives<F>>(
    score: S,
    opts: NewtonOpts,
    caps: Option<Vec<Double>>,
    bnds: Option<Bounds>,
    theta0: Seq<Double>,
    m0: ScoreMemory<S::Accepted>,
    states: Seq<Search<S::Accepted>>,
) -> bool
    decreases states.len(),
{
    if states.len() == 0 {
        false
    } else if states.len() == 1 {
        begins::<F, S>(score, opts, bnds, theta0, m0, states.last())
    } else {
        &&& course::<F, D, S>(score, opts, caps, bnds, theta0, m0, states.drop_last())
        &&& follows::<F, D, S>(score, caps, bnds, states.drop_last().last(), states.last())
    }
}

/// There is a cap for each axis and the bounds are in order.
pub open spec fn limits_fit(caps: Option<Vec<Double>>, bnds: Option<Bounds>, n: nat) -> bool {
    (caps matches Some(c) ==> c@.len() >= n) && bounds_ordered(borrowed(bnds), n)
}

/// A finished search and its result.
pub open spec fn fit_of<A>(end: Search<A>, fit: OuterFit) -> bool {
    &&& end.next is Finish
    &&& fit.theta == end.theta
    &&& fit.value == end.run.outcome.value
    &&& fit.grad_norm == end.run.outcome.grad_norm
    &&& fit.iterations == end.run.outcome.iterations
    &&& fit.converged == end.run.outcome.converged
}

/// A search from `theta0` led to a result.
pub open spec fn searched<F: Arithmetic, D: DenseBackend, S: ScoreDerivatives<F>>(
    score: S,
    opts: NewtonOpts,
    theta0: Seq<Double>,
    m0: ScoreMemory<S::Accepted>,
    fit: OuterFit,
    m: ScoreMemory<S::Accepted>,
) -> bool {
    exists|caps: Option<Vec<Double>>, bnds: Option<Bounds>, states: Seq<Search<S::Accepted>>|
        score.limited(caps, bnds) && limits_fit(caps, bnds, theta0.len()) && fit_of(
            states.last(),
            fit,
        ) && m == states.last().memory && #[trigger] course::<F, D, S>(
            score,
            opts,
            caps,
            bnds,
            theta0,
            m0,
            states,
        ) && clamp_point(fit.theta@, borrowed(bnds)) == fit.theta@
}

/// Why a search could not begin: the limits do not fit, the first evaluation
/// failed, or its derivatives are not those of as many parameters. What is
/// remembered is what that evaluation left, if there was one.
pub open spec fn not_begun<F: Arithmetic, S: ScoreDerivatives<F>>(
    score: S,
    theta0: Seq<Double>,
    m0: ScoreMemory<S::Accepted>,
    e: GamrsError,
    after: ScoreMemory<S::Accepted>,
) -> bool {
    exists|caps: Option<Vec<Double>>, bnds: Option<Bounds>| #[trigger]
        score.limited(caps, bnds) && if limits_fit(caps, bnds, theta0.len()) {
            exists|r: Result<Evaluation, GamrsError>| #[trigger]
                score.evaluates(m0, clamp_point(theta0, borrowed(bnds)), r, after) && match r {
                    Ok(ev) => theta0.len() > 0 && !ev.fits(theta0.len()) && says(
                        e,
                        "derivatives have the wrong shape"@,
                    ),
                    Err(u) => e == u,
                }
        } else {
            after == m0 && says(e, "step caps or bounds do not fit the parameters"@)
        }
}

/// An error about parameters with a given text.
pub open spec fn says(e: GamrsError, text: Seq<char>) -> bool {
    e matches GamrsError::InvalidParameter(m) && m@ == text
}

fn ordered(v: &Bounds, n: usize) -> (b: bool)
    ensures
        b == pairs_ordered(v@, n as nat),
{
    for i in 0..v.len()
        invariant
            forall|k: int| 0 <= k < i && k < n ==> #[trigger] pair_ordered(v@, k),
    {
        if i < n && !v[i].0.le(v[i].1) {
            assert(!pair_ordered(v@, i as int));
            return false;
        }
    }
    true
}

fn limits_ok(caps: &Option<Vec<Double>>, bnds: &Option<Bounds>, n: usize) -> (b: bool)
    ensures
        b == limits_fit(*caps, *bnds, n as nat),
{
    let caps_ok: bool = match caps {
        Some(c) => c.len() >= n,
        None => true,
    };
    let bnds_ok: bool = match bnds {
        Some(v) => ordered(v, n),
        None => true,
    };
    caps_ok && bnds_ok
}

/// Advances the control and counts the event.
fn take<F: Arithmetic, A>(run: &mut NewtonRun, e: NewtonEvent, m: ScoreMemory<A>) -> (r: (NewtonAction, ScoreMemory<A>))
    requires
        lawful::<F>(),
        old(run).wf(),
        old(run).expects(e),
    ensures
        (*final(run), r.0) == old(run).after::<F>(e),
        final(run).wf(),
        recorded::<F, A>(*old(run), e, m, r.1),
{
    match m.stats {
        Some(st) => {
            let mut s: FitStats = st;
            let a: NewtonAction = run.advance::<F>(e, &mut s);
            (a, ScoreMemory { accepted: m.accepted, stats: Some(s), observed: m.observed })
        },
        None => {
            let mut s: FitStats = FitStats::new();
            let a: NewtonAction = run.advance::<F>(e, &mut s);
            (a, ScoreMemory { accepted: m.accepted, stats: None, observed: m.observed })
        },
    }
}

/// Builds the steps of an iteration.
fn build_step<F: Arithmetic, D: DenseBackend, S: ScoreDerivatives<F>>(
    Ghost(score): Ghost<S>,
    caps: &Option<Vec<Double>>,
    bnds: &Option<Bounds>,
    s: Search<S::Accepted>,
) -> (t: Search<S::Accepted>)
    requires
        lawful::<F>(),
        s.fits(),
        s.waits(),
        s.next is BuildStep,
        limits_fit(*caps, *bnds, s.theta@.len()),
    ensures
        t.fits(),
        t.waits(),
        t.theta == s.theta,
        t.trial == s.trial,
        t.run.budget() < s.run.budget(),
        0 <= t.run.budget(),
        t.run.opts == s.run.opts,
        follows::<F, D, S>(score, *caps, *bnds, s, t),
{
    let ghost before = s;
    let b: Option<&Bounds> = bnds.as_ref();
    let c: Option<&Vec<Double>> = caps.as_ref();
    assert(b == borrowed(*bnds));
    assert(c == borrowed(*caps));
    let mut run: NewtonRun = s.run;
    let dim_tol: Double = run.dim_tol::<F>();
    let active: Vec<usize> = active_axes(&s.g, &s.h, dim_tol);
    proof {
        law_active_axes(s.g@, s.h@, dim_tol);
    }
    let raw: Vec<Double> = newton_direction::<F, D>(&s.g, &s.h, &active, run.opts.hess_floor);
    let projected: Vec<Double> = project_onto_box::<F>(&raw, &s.theta, b);
    let capped: Vec<Double> = cap_step::<F>(&projected, c, run.opts.max_step);
    let found: Option<Vec<Double>> = concave_bound_jump::<F>(
        &s.theta,
        &s.g,
        &s.h,
        &capped,
        b,
        dim_tol,
    );
    let descent: Vec<Double> = steepest_descent_dir::<F>(&s.g);
    let has_descent: bool = zero().lt(l2_norm::<F>(&descent));
    let (has_jump, jump) = match found {
        Some(j) => (true, j),
        None => {
            let j: Vec<Double> = capped.clone();
            assert(j@ =~= capped@);
            (false, j)
        },
    };
    let e: NewtonEvent = NewtonEvent::StepBuilt { jump: has_jump, descent: has_descent };
    proof {
        law_every_event_uses_budget::<F>(run, e);
        law_bounds_are_kept::<F>(run, e);
    }
    let (next, memory) = take::<F, S::Accepted>(&mut run, e, s.memory);
    let t: Search<S::Accepted> = Search {
        run,
        next,
        theta: s.theta,
        g: s.g,
        h: s.h,
        raw,
        capped,
        jump,
        descent,
        last: s.last,
        trial: s.trial,
        memory,
    };
    assert(builds::<F, D, S::Accepted>(*caps, *bnds, before, e, t));
    assert(happened::<F, D, S>(score, *caps, *bnds, before, e, before.memory, t));
    t
}

/// Probes the trial point of a candidate.
fn probe<F: Arithmetic, D: DenseBackend, S: ScoreDerivatives<F>>(
    score: &S,
    Ghost(caps): Ghost<Option<Vec<Double>>>,
    bnds: &Option<Bounds>,
    c: Candidate,
    s: Search<S::Accepted>,
) -> (t: Search<S::Accepted>)
    requires
        lawful::<F>(),
        score.ready(),
        score.takes(s.theta@.len()),
        s.fits(),
        s.waits(),
        s.next == NewtonAction::Probe(c),
        limits_fit(caps, *bnds, s.theta@.len()),
    ensures
        t.fits(),
        t.waits(),
        t.theta == s.theta,
        t.trial@ == clamp_point(t.trial@, borrowed(*bnds)),
        0 <= t.run.budget(),
        t.run.budget() < s.run.budget(),
        t.run.opts == s.run.opts,
        follows::<F, D, S>(*score, caps, *bnds, s, t),
{
    let ghost before = s;
    let b: Option<&Bounds> = bnds.as_ref();
    assert(b == borrowed(*bnds));
    let mut run: NewtonRun = s.run;
    let last: Vec<Double> = trial_step::<F>(c, &s.capped, &s.jump, &s.last, &s.descent);
    let trial: Vec<Double> = trial_point::<F>(&s.theta, &last, b);
    let (r, m) = score.value(s.memory, &trial);
    let e: NewtonEvent = match &r {
        Ok(x) => {
            let scale: Double = plus::<F>(run.value.abs(), one());
            let err: Double = quadratic_model_error::<F>(
                &s.g,
                &s.h,
                &last,
                minus::<F>(*x, run.value),
                scale,
                lit(MGCV_CONV_TOL),
            );
            NewtonEvent::Probed { trial: Some(*x), model_error: err }
        },
        Err(_) => NewtonEvent::Probed { trial: None, model_error: zero() },
    };
    proof {
        law_every_event_uses_budget::<F>(run, e);
        law_bounds_are_kept::<F>(run, e);
        law_clamp_twice(vec_plus_of::<F>(s.theta@, last@), *bnds);
    }
    let ghost answered = m;
    let (next, memory) = take::<F, S::Accepted>(&mut run, e, m);
    let t: Search<S::Accepted> = Search {
        run,
        next,
        theta: s.theta,
        g: s.g,
        h: s.h,
        raw: s.raw,
        capped: s.capped,
        jump: s.jump,
        descent: s.descent,
        last,
        trial,
        memory,
    };
    assert(score.values(before.memory, t.trial@, r, answered));
    assert(probes::<F, S>(*score, *bnds, before, c, e, answered, t));
    assert(happened::<F, D, S>(*score, caps, *bnds, before, e, answered, t));
    t
}

/// A clamped point is in the box: clamping it again leaves it where it is.
pub proof fn law_clamp_twice(t: Seq<Double>, bnds: Option<Bounds>)
    requires
        bounds_ordered(borrowed(bnds), t.len()),
    ensures
        clamp_point(clamp_point(t, borrowed(bnds)), borrowed(bnds)) == clamp_point(t, borrowed(bnds)),
{
    match bnds {
        Some(b) => {
            law_clamp_lands_in_the_box(t, &b);
        },
        None => {},
    }
}

/// Moves to the last trial point and evaluates it.
fn refresh<F: Arithmetic, D: DenseBackend, S: ScoreDerivatives<F>>(
    score: &S,
    Ghost(caps): Ghost<Option<Vec<Double>>>,
    Ghost(bnds): Ghost<Option<Bounds>>,
    s: Search<S::Accepted>,
) -> (t: Search<S::Accepted>)
    requires
        lawful::<F>(),
        score.ready(),
        score.takes(s.theta@.len()),
        s.fits(),
        s.waits(),
        s.next is Refresh,
        limits_fit(caps, bnds, s.theta@.len()),
    ensures
        t.fits(),
        t.waits(),
        t.theta@ == s.trial@,
        t.trial == s.trial,
        0 <= t.run.budget(),
        t.run.budget() < s.run.budget(),
        t.run.opts == s.run.opts,
        follows::<F, D, S>(*score, caps, bnds, s, t),
{
    let ghost before = s;
    let mut run: NewtonRun = s.run;
    let n: usize = s.theta.len();
    let (r, m) = score.value_grad_hess(s.memory, &s.trial);
    let ghost answer = r;
    let ghost answered = m;
    let (e, g, h) = match r {
        Ok(ev) => if ev.grad.len() == n && is_square(&ev.hess, n) {
            let norm: Double = inf_norm(&ev.grad);
            (NewtonEvent::Refreshed { value: ev.value, grad_norm: norm }, ev.grad, ev.hess)
        } else {
            (NewtonEvent::RefreshFailed, s.g, s.h)
        },
        Err(_) => (NewtonEvent::RefreshFailed, s.g, s.h),
    };
    proof {
        law_every_event_uses_budget::<F>(run, e);
        law_bounds_are_kept::<F>(run, e);
    }
    let (next, memory) = take::<F, S::Accepted>(&mut run, e, m);
    let theta: Vec<Double> = s.trial.clone();
    assert(theta@ =~= s.trial@);
    let t: Search<S::Accepted> = Search {
        run,
        next,
        theta,
        g,
        h,
        raw: s.raw,
        capped: s.capped,
        jump: s.jump,
        descent: s.descent,
        last: s.last,
        trial: s.trial,
        memory,
    };
    assert(score.evaluates(before.memory, before.trial@, answer, answered));
    assert(refreshes::<F, S>(*score, before, e, answered, t));
    assert(happened::<F, D, S>(*score, caps, bnds, before, e, answered, t));
    t
}

/// Classifies the current point.
fn classify<F: Arithmetic, D: DenseBackend, S: ScoreDerivatives<F>>(
    Ghost(score): Ghost<S>,
    Ghost(caps): Ghost<Option<Vec<Double>>>,
    bnds: &Option<Bounds>,
    s: Search<S::Accepted>,
) -> (t: Search<S::Accepted>)
    requires
        lawful::<F>(),
        s.fits(),
        s.waits(),
        s.next is Classify,
    ensures
        t.fits(),
        t.waits(),
        t.theta == s.theta,
        t.trial == s.trial,
        t.run.budget() < s.run.budget(),
        0 <= t.run.budget(),
        t.run.opts == s.run.opts,
        follows::<F, D, S>(score, caps, *bnds, s, t),
{
    let ghost before = s;
    let mut run: NewtonRun = s.run;
    let spectrum: Option<Spectrum> = checked_eigh::<D>(&s.h, s.theta.len());
    assert(eigh_answered::<D>(s.h@, spectrum));
    let b: Option<&Bounds> = bnds.as_ref();
    let sp: Option<&Spectrum> = spectrum.as_ref();
    let optimum: bool = {
        let p: StandingPoint = StandingPoint {
            theta: &s.theta,
            g: &s.g,
            raw_step: &s.raw,
            bnds: b,
            spectrum: sp,
            v: run.value,
            grad_norm: run.grad_norm,
        };
        assert(p == standing(before, *bnds, spectrum));
        step_failure_is_convergence::<F>(&p)
    };
    let e: NewtonEvent = NewtonEvent::Classified(optimum);
    proof {
        law_every_event_uses_budget::<F>(run, e);
        law_bounds_are_kept::<F>(run, e);
    }
    let (next, memory) = take::<F, S::Accepted>(&mut run, e, s.memory);
    let t: Search<S::Accepted> = Search {
        run,
        next,
        theta: s.theta,
        g: s.g,
        h: s.h,
        raw: s.raw,
        capped: s.capped,
        jump: s.jump,
        descent: s.descent,
        last: s.last,
        trial: s.trial,
        memory,
    };
    assert(classifies::<F, D, S::Accepted>(*bnds, before, e, t));
    assert(happened::<F, D, S>(score, caps, *bnds, before, e, before.memory, t));
    t
}

impl NewtonWithHalving {
    /// Minimises a score from a starting point by damped Newton steps. The result
    /// lies in the score's box, after at most `max_iters` iterations, and the
    /// whole course follows [`NewtonRun`].
    pub fn minimize<F: Arithmetic, D: DenseBackend, S: ScoreDerivatives<F>>(
        &self,
        score: &S,
        memory: ScoreMemory<S::Accepted>,
        theta0: Vec<Double>,
    ) -> (r: (Result<OuterFit, GamrsError>, ScoreMemory<S::Accepted>))
        requires
            lawful::<F>(),
            score.ready(),
            score.takes(theta0@.len()),
        ensures
            match r.0 {
                Ok(fit) => searched::<F, D, S>(*score, self.opts, theta0@, memory, fit, r.1)
                    && fit.theta@.len() == theta0@.len() && fit.iterations <= self.opts.max_iters,
                Err(e) => not_begun::<F, S>(*score, theta0@, memory, e, r.1),
            },
    {
        let ghost given = theta0@;
        let ghost m0 = memory;
        let n: usize = theta0.len();
        let (caps, bnds) = score.axis_limits();
        if !limits_ok(&caps, &bnds, n) {
            return (
                Err(
                    GamrsError::InvalidParameter(
                        "step caps or bounds do not fit the parameters".to_owned(),
                    ),
                ),
                memory,
            );
        }
        let theta: Vec<Double> = clamp_to_box(theta0, bnds.as_ref());
        proof {
            law_clamp_twice(given, bnds);
        }
        let (first, m) = score.value_grad_hess(memory, &theta);
        assert(score.evaluates(m0, theta@, first, m));
        let ev: Evaluation = match first {
            Ok(ev) => if n == 0 || (ev.grad.len() == n && is_square(&ev.hess, n)) {
                ev
            } else {
                return (
                    Err(
                        GamrsError::InvalidParameter(
                            "derivatives have the wrong shape".to_owned(),
                        ),
                    ),
                    m,
                );
            },
            Err(e) => {
                return (Err(e), m);
            },
        };
        let ghost seen = ev;
        let ghost answered = m;
        let mut run: NewtonRun = self.begin(n);
        let grad_norm: Double = inf_norm(&ev.grad);
        let e: NewtonEvent = NewtonEvent::Evaluated { value: ev.value, grad_norm };
        proof {
            law_every_event_uses_budget::<F>(run, e);
            law_bounds_are_kept::<F>(run, e);
        }
        let (next, counted) = take::<F, S::Accepted>(&mut run, e, m);
        let raw: Vec<Double> = theta.clone();
        let capped: Vec<Double> = theta.clone();
        let jump: Vec<Double> = theta.clone();
        let descent: Vec<Double> = theta.clone();
        let last: Vec<Double> = theta.clone();
        let trial: Vec<Double> = theta.clone();
        assert(trial@ =~= theta@);
        let mut s: Search<S::Accepted> = Search {
            run,
            next,
            theta,
            g: ev.grad,
            h: ev.hess,
            raw,
            capped,
            jump,
            descent,
            last,
            trial,
            memory: counted,
        };
        let ghost mut states: Seq<Search<S::Accepted>> = seq![s];
        assert(score.evaluates(m0, s.theta@, Ok(seen), answered));
        assert(begins::<F, S>(*score, self.opts, bnds, given, m0, s));
        loop
            invariant
                lawful::<F>(),
                score.ready(),
                given == theta0@,
                m0 == memory,
                n == given.len(),
                score.takes(given.len()),
                score.limited(caps, bnds),
                limits_fit(caps, bnds, given.len()),
                s.next is Finish || s.fits(),
                s.waits(),
                s.theta@.len() == n,
                s.run.opts == self.opts,
                clamp_point(s.theta@, borrowed(bnds)) == s.theta@,
                clamp_point(s.trial@, borrowed(bnds)) == s.trial@,
                states.len() >= 1,
                states.last() == s,
                course::<F, D, S>(*score, self.opts, caps, bnds, given, m0, states),
            decreases s.run.budget(),
        {
            let ghost before = s;
            match s.next {
                NewtonAction::BuildStep => {
                    s = build_step::<F, D, S>(Ghost(*score), &caps, &bnds, s);
                },
                NewtonAction::Probe(c) => {
                    s = probe::<F, D, S>(score, Ghost(caps), &bnds, c, s);
                },
                NewtonAction::Refresh => {
                    s = refresh::<F, D, S>(score, Ghost(caps), Ghost(bnds), s);
                },
                NewtonAction::Classify => {
                    s = classify::<F, D, S>(Ghost(*score), Ghost(caps), &bnds, s);
                },
                NewtonAction::Finish => {
                    let ghost end = s;
                    let fit: OuterFit = OuterFit {
                        theta: s.theta,
                        value: s.run.outcome.value,
                        grad_norm: s.run.outcome.grad_norm,
                        iterations: s.run.outcome.iterations,
                        converged: s.run.outcome.converged,
                    };
                    assert(fit_of(end, fit));
                    return (Ok(fit), s.memory);
                },
            }
            proof {
                let grown = states.push(s);
                assert(grown.drop_last() =~= states);
                states = grown;
            }
        }
    }
}

} // verus!
