//! The damped Newton search as a state machine.
//!
//! The caller evaluates the score, builds steps and probes trial points; the
//! search decides what to do next. [`NewtonRun::advance`] takes what happened and
//! returns the next thing to do, until it returns [`NewtonAction::Finish`].

use vstd::prelude::*;

use crate::arith::{lawful, minus, over, plus, times, Arithmetic};
use crate::dense::{scaled, scaled_of, vec_plus, vec_plus_of};
use crate::double::{half, lit, one, zero, Double, E_M10, E_M3, INF_BITS};
use crate::outer::step::{
    bounds_ordered, clamp_point, clamp_to_box, l2_norm, l2_norm_of, relaxed_grad_converged,
    score_bar, Bounds, DIM_TOL_REL, MAX_S_STEP, QERROR_THRESH,
};
use crate::outer::NewtonOpts;
use crate::stats::{count_up, FitStats, FitStatsSnapshot};

verus! {

/// Halvings a line search may try.
pub const MAX_HALF: usize = 30;

/// What the search waits for.
#[derive(Clone, Copy, Debug, PartialEq, Eq, Structural)]
pub enum Phase {
    /// The evaluation at the starting point.
    Start,
    /// The candidate steps of this iteration.
    Build,
    /// The probe of the jump to the bounds.
    Jump,
    /// The probe of the full step.
    Full,
    /// The probe of a shortened step.
    Halve,
    /// The evaluation at the accepted point.
    Refresh,
    /// The verdict on a point from which no step improves.
    Classify,
    /// Nothing.
    Done,
}

/// A trial step.
#[derive(Clone, Copy, Debug, PartialEq, Eq, Structural)]
pub enum Candidate {
    /// The capped step with its concave axes taken to their bounds.
    Jump,
    /// The capped step.
    Full,
    /// The last trial step, halved.
    Half,
    /// The steepest-descent direction, as long as the last trial step but at most
    /// 2.
    Descent,
}

/// What happened.
#[derive(Clone, Copy, Debug, PartialEq, Eq, Structural)]
pub enum NewtonEvent {
    /// The starting point was evaluated.
    Evaluated {
        /// Its score.
        value: Double,
        /// Largest absolute component of its gradient.
        grad_norm: Double,
    },
    /// The candidate steps are built.
    StepBuilt {
        /// Some concave axis can jump to a bound.
        jump: bool,
        /// The steepest-descent direction has positive length.
        descent: bool,
    },
    /// The trial point was probed.
    Probed {
        /// Its score; `None` where evaluating it failed.
        trial: Option<Double>,
        /// The quadratic model's error for the trial step.
        model_error: Double,
    },
    /// The accepted point was evaluated.
    Refreshed {
        /// Its score.
        value: Double,
        /// Largest absolute component of its gradient.
        grad_norm: Double,
    },
    /// Evaluating the accepted point failed: its score is that of the probe, and
    /// the gradient stays the one of the point before.
    RefreshFailed,
    /// The point without an improving step is, or is not, an optimum.
    Classified(bool),
}

/// What to do next.
#[derive(Clone, Copy, Debug, PartialEq, Eq, Structural)]
pub enum NewtonAction {
    /// Build the candidate steps at the current point.
    BuildStep,
    /// Probe a trial step.
    Probe(Candidate),
    /// Move to the trial point and evaluate it in full.
    Refresh,
    /// Classify the current point.
    Classify,
    /// Stop; the outcome stands in [`NewtonRun::outcome`].
    Finish,
}

/// How a search ended.
#[derive(Clone, Copy, Debug, PartialEq, Eq, Structural)]
pub struct Outcome {
    /// Score at the last point.
    pub value: Double,
    /// Largest absolute gradient component there.
    pub grad_norm: Double,
    /// Iterations.
    pub iterations: usize,
    /// Whether the point counts as an optimum.
    pub converged: bool,
}

/// A search in progress.
#[derive(Clone, Copy, Debug, PartialEq, Eq, Structural)]
pub struct NewtonRun {
    /// Tolerances and limits.
    pub opts: NewtonOpts,
    /// Number of parameters.
    pub dim: usize,
    /// What the search waits for.
    pub phase: Phase,
    /// Iteration, from 0.
    pub iter: usize,
    /// Score at the current point.
    pub value: Double,
    /// Score at the point before; infinite at the start.
    pub prev_value: Double,
    /// Largest absolute gradient component in use.
    pub grad_norm: Double,
    /// The steepest-descent direction has positive length.
    pub descent: bool,
    /// Shortened steps that failed.
    pub failed: usize,
    /// Times the step was halved.
    pub halvings: usize,
    /// The line search switched to steepest descent.
    pub sd_used: bool,
    /// Score of the accepted trial point.
    pub accepted: Double,
    /// How the search ended, once it did.
    pub outcome: Outcome,
}

/// The step factor after `n` halvings, `2^-n`.
pub open spec fn alpha_after(n: int) -> Double {
    Double { bits: (0x3ff0_0000_0000_0000 - n * 0x0010_0000_0000_0000) as u64 }
}

impl NewtonRun {
    /// Bounds that hold between events.
    pub open spec fn wf(self) -> bool {
        &&& self.phase is Start ==> self.iter == 0
        &&& (self.phase is Build || self.phase is Jump || self.phase is Full || self.phase is Halve
            || self.phase is Refresh || self.phase is Classify) ==> self.dim > 0 && self.iter
            < self.opts.max_iters
        &&& self.phase is Halve ==> self.failed < MAX_HALF && self.halvings <= self.failed + 1
        &&& self.phase is Done ==> self.outcome.iterations <= self.opts.max_iters
    }

    /// The event is of the kind that the search waits for.
    pub open spec fn expects(self, e: NewtonEvent) -> bool {
        match e {
            NewtonEvent::Evaluated { .. } => self.phase is Start,
            NewtonEvent::StepBuilt { .. } => self.phase is Build,
            NewtonEvent::Probed { .. } => self.phase is Jump || self.phase is Full || self.phase is Halve,
            NewtonEvent::Refreshed { .. } => self.phase is Refresh,
            NewtonEvent::RefreshFailed => self.phase is Refresh,
            NewtonEvent::Classified(_) => self.phase is Classify,
        }
    }

    /// The gradient is below `grad_tol (|score| + 1)`.
    pub open spec fn grad_small<F: Arithmetic>(self) -> bool {
        self.grad_norm.below(score_bar::<F>(self.opts.grad_tol, self.value))
    }

    /// The change of the score relative to `max(|score|, 1)`.
    pub open spec fn rel_change<F: Arithmetic>(self) -> Double {
        over::<F>(
            minus::<F>(self.value, self.prev_value),
            self.value.abs_spec().max_spec(one()),
        ).abs_spec()
    }

    /// The score still moves. It counts as moving in the first three iterations.
    pub open spec fn still_moving<F: Arithmetic>(self) -> bool {
        self.iter < 3 || self.opts.reml_tol.below(self.rel_change::<F>())
    }

    /// The bar under the score that an improvement has to pass:
    /// `score - 1e-10 |score|`.
    pub open spec fn improve_bar<F: Arithmetic>(self) -> Double {
        minus::<F>(self.value, times::<F>(lit(E_M10), self.value.abs_spec()))
    }

    /// A trial value that improves the score.
    pub open spec fn improves<F: Arithmetic>(self, x: Double) -> bool {
        x.finite() && x.below(self.improve_bar::<F>())
    }

    /// The probe is accepted. A jump need only improve. The other steps must also
    /// follow the quadratic model, which is no longer asked of a shortened step
    /// after five failures.
    pub open spec fn accepts<F: Arithmetic>(self, value: Option<Double>, model_error: Double) -> bool {
        match value {
            Some(x) => self.improves::<F>(x) && (self.phase is Jump || (self.phase is Halve
                && self.failed > 4) || model_error.below(lit(QERROR_THRESH))),
            None => false,
        }
    }

    /// The search over, at this point.
    pub open spec fn finished(self, out: Outcome) -> (NewtonRun, NewtonAction) {
        (NewtonRun { phase: Phase::Done, outcome: out, ..self }, NewtonAction::Finish)
    }

    /// The head of an iteration: stop at the iteration limit, stop at a small
    /// gradient if the score is at rest, else build a step.
    pub open spec fn at_top<F: Arithmetic>(self) -> (NewtonRun, NewtonAction) {
        if self.iter >= self.opts.max_iters {
            self.finished(
                Outcome {
                    value: self.value,
                    grad_norm: self.grad_norm,
                    iterations: self.opts.max_iters,
                    converged: self.grad_norm.below(score_bar::<F>(lit(E_M3), self.value)),
                },
            )
        } else if self.grad_small::<F>() && !self.still_moving::<F>() {
            self.finished(
                Outcome {
                    value: self.value,
                    grad_norm: self.grad_norm,
                    iterations: self.iter,
                    converged: true,
                },
            )
        } else {
            (NewtonRun { phase: Phase::Build, ..self }, NewtonAction::BuildStep)
        }
    }

    /// The next shortened step: steepest descent once, in place of the fourth
    /// halving of an early iteration, else half of the last step. After the last
    /// one the point is classified.
    pub open spec fn next_shorter(self) -> (NewtonRun, NewtonAction) {
        if self.failed >= MAX_HALF {
            (NewtonRun { phase: Phase::Classify, ..self }, NewtonAction::Classify)
        } else if self.failed == 3 && self.iter < 10 && !self.sd_used && self.descent {
            (
                NewtonRun { phase: Phase::Halve, sd_used: true, ..self },
                NewtonAction::Probe(Candidate::Descent),
            )
        } else {
            (
                NewtonRun {
                    phase: Phase::Halve,
                    halvings: (self.halvings + 1) as usize,
                    ..self
                },
                NewtonAction::Probe(Candidate::Half),
            )
        }
    }

    /// What follows a rejected probe.
    pub open spec fn after_rejection(self) -> (NewtonRun, NewtonAction) {
        if self.phase is Jump {
            (NewtonRun { phase: Phase::Full, ..self }, NewtonAction::Probe(Candidate::Full))
        } else if self.phase is Full {
            NewtonRun { failed: 0, halvings: 0, sd_used: false, ..self }.next_shorter()
        } else {
            let next = NewtonRun { failed: (self.failed + 1) as usize, ..self };
            if !self.sd_used && alpha_after(self.halvings as int).below(self.opts.step_min) {
                (NewtonRun { phase: Phase::Classify, ..next }, NewtonAction::Classify)
            } else {
                next.next_shorter()
            }
        }
    }

    /// The search at the next point.
    pub open spec fn moved(self, value: Double, grad_norm: Double) -> NewtonRun {
        NewtonRun {
            iter: (self.iter + 1) as usize,
            prev_value: self.value,
            value,
            grad_norm,
            ..self
        }
    }

    /// The search after an event, and what it asks for.
    pub open spec fn after<F: Arithmetic>(self, e: NewtonEvent) -> (NewtonRun, NewtonAction) {
        match e {
            NewtonEvent::Evaluated { value, grad_norm } => if self.dim == 0 {
                NewtonRun { value, grad_norm, ..self }.finished(
                    Outcome { value, grad_norm: zero(), iterations: 0, converged: true },
                )
            } else {
                NewtonRun { value, grad_norm, ..self }.at_top::<F>()
            },
            NewtonEvent::StepBuilt { jump, descent } => if jump {
                (
                    NewtonRun { phase: Phase::Jump, descent, ..self },
                    NewtonAction::Probe(Candidate::Jump),
                )
            } else {
                (
                    NewtonRun { phase: Phase::Full, descent, ..self },
                    NewtonAction::Probe(Candidate::Full),
                )
            },
            NewtonEvent::Probed { trial, model_error } => if self.accepts::<F>(trial, model_error) {
                (
                    NewtonRun { phase: Phase::Refresh, accepted: trial->0, ..self },
                    NewtonAction::Refresh,
                )
            } else {
                self.after_rejection()
            },
            NewtonEvent::Refreshed { value, grad_norm } => self.moved(value, grad_norm).at_top::<F>(),
            NewtonEvent::RefreshFailed => self.moved(self.accepted, self.grad_norm).at_top::<F>(),
            NewtonEvent::Classified(b) => self.finished(
                Outcome {
                    value: self.value,
                    grad_norm: self.grad_norm,
                    iterations: (self.iter + 1) as usize,
                    converged: b,
                },
            ),
        }
    }

    /// The event opens an iteration: it brings a point to a search that has
    /// parameters and iterations left.
    pub open spec fn opens_iteration(self, e: NewtonEvent) -> bool {
        match e {
            NewtonEvent::Evaluated { .. } => self.dim > 0 && self.opts.max_iters > 0,
            NewtonEvent::Refreshed { .. } => self.iter + 1 < self.opts.max_iters,
            NewtonEvent::RefreshFailed => self.iter + 1 < self.opts.max_iters,
            _ => false,
        }
    }

    /// The counters after an event: one more iteration where it opens one, one
    /// more trial where it is answered by a probe.
    pub open spec fn counted<F: Arithmetic>(self, e: NewtonEvent, before: FitStatsSnapshot) -> FitStatsSnapshot {
        FitStatsSnapshot {
            outer_iterations: if self.opens_iteration(e) {
                count_up(before.outer_iterations, 1)
            } else {
                before.outer_iterations
            },
            line_search_trials: if self.after::<F>(e).1 is Probe {
                count_up(before.line_search_trials, 1)
            } else {
                before.line_search_trials
            },
            ..before
        }
    }

    /// A search over `dim` parameters, before its first evaluation.
    pub open spec fn started(opts: NewtonOpts, dim: usize) -> NewtonRun {
        NewtonRun {
            opts,
            dim,
            phase: Phase::Start,
            iter: 0,
            value: zero(),
            prev_value: lit(INF_BITS),
            grad_norm: zero(),
            descent: false,
            failed: 0,
            halvings: 0,
            sd_used: false,
            accepted: zero(),
            outcome: Outcome {
                value: zero(),
                grad_norm: zero(),
                iterations: 0,
                converged: false,
            },
        }
    }

    /// A search over `dim` parameters, before its first evaluation.
    pub fn start(opts: NewtonOpts, dim: usize) -> (s: NewtonRun)
        ensures
            s == NewtonRun::started(opts, dim),
            s.wf(),
            s.phase is Start,
            s.iter == 0,
            s.dim == dim,
            s.opts == opts,
            s.prev_value == lit(INF_BITS),
    {
        NewtonRun {
            opts,
            dim,
            phase: Phase::Start,
            iter: 0,
            value: zero(),
            prev_value: lit(INF_BITS),
            grad_norm: zero(),
            descent: false,
            failed: 0,
            halvings: 0,
            sd_used: false,
            accepted: zero(),
            outcome: Outcome {
                value: zero(),
                grad_norm: zero(),
                iterations: 0,
                converged: false,
            },
        }
    }

    fn finish(&mut self, out: Outcome) -> (a: NewtonAction)
        ensures
            (*final(self), a) == old(self).finished(out),
    {
        self.phase = Phase::Done;
        self.outcome = out;
        NewtonAction::Finish
    }

    fn top<F: Arithmetic>(&mut self, stats: &mut FitStats) -> (a: NewtonAction)
        requires
            lawful::<F>(),
        ensures
            (*final(self), a) == old(self).at_top::<F>(),
            final(stats)@ == (FitStatsSnapshot {
                outer_iterations: if old(self).iter < old(self).opts.max_iters {
                    count_up(old(stats)@.outer_iterations, 1)
                } else {
                    old(stats)@.outer_iterations
                },
                ..old(stats)@
            }),
    {
        let v: Double = self.value;
        let grad_norm: Double = self.grad_norm;
        if self.iter >= self.opts.max_iters {
            let out: Outcome = Outcome {
                value: v,
                grad_norm,
                iterations: self.opts.max_iters,
                converged: relaxed_grad_converged::<F>(grad_norm, v),
            };
            return self.finish(out);
        }
        stats.bump_outer();
        let grad_bar: Double = times::<F>(self.opts.grad_tol, plus::<F>(v.abs(), one()));
        let reml_still_moving: bool = if self.iter >= 3 {
            let denom: Double = v.abs().max(one());
            let change: Double = over::<F>(minus::<F>(v, self.prev_value), denom).abs();
            self.opts.reml_tol.lt(change)
        } else {
            true
        };
        if grad_norm.lt(grad_bar) && !reml_still_moving {
            let out: Outcome = Outcome {
                value: v,
                grad_norm,
                iterations: self.iter,
                converged: true,
            };
            return self.finish(out);
        }
        self.phase = Phase::Build;
        NewtonAction::BuildStep
    }

    fn shorter(&mut self) -> (a: NewtonAction)
        requires
            old(self).halvings < usize::MAX,
        ensures
            (*final(self), a) == old(self).next_shorter(),
    {
        if self.failed >= MAX_HALF {
            self.phase = Phase::Classify;
            return NewtonAction::Classify;
        }
        self.phase = Phase::Halve;
        if self.failed == 3 && self.iter < 10 && !self.sd_used && self.descent {
            self.sd_used = true;
            NewtonAction::Probe(Candidate::Descent)
        } else {
            self.halvings = self.halvings + 1;
            NewtonAction::Probe(Candidate::Half)
        }
    }

    fn rejected(&mut self) -> (a: NewtonAction)
        requires
            old(self).wf(),
            old(self).phase is Jump || old(self).phase is Full || old(self).phase is Halve,
        ensures
            (*final(self), a) == old(self).after_rejection(),
    {
        match self.phase {
            Phase::Jump => {
                self.phase = Phase::Full;
                NewtonAction::Probe(Candidate::Full)
            },
            Phase::Full => {
                self.failed = 0;
                self.halvings = 0;
                self.sd_used = false;
                self.shorter()
            },
            _ => {
                self.failed = self.failed + 1;
                let alpha: Double = Double {
                    bits: one().bits - (self.halvings as u64) * 0x0010_0000_0000_0000,
                };
                if !self.sd_used && alpha.lt(self.opts.step_min) {
                    self.phase = Phase::Classify;
                    NewtonAction::Classify
                } else {
                    self.shorter()
                }
            },
        }
    }

    fn probed<F: Arithmetic>(&self, value: Option<Double>, model_error: Double) -> (r: Option<Double>)
        requires
            lawful::<F>(),
        ensures
            r is Some == self.accepts::<F>(value, model_error),
            r is Some ==> r == value,
    {
        match value {
            Some(x) => {
                let bar: Double = minus::<F>(self.value, times::<F>(lit(E_M10), self.value.abs()));
                if !(x.is_finite() && x.lt(bar)) {
                    return None;
                }
                let exempt: bool = match self.phase {
                    Phase::Jump => true,
                    Phase::Halve => self.failed > 4,
                    _ => false,
                };
                if exempt || model_error.lt(lit(QERROR_THRESH)) {
                    Some(x)
                } else {
                    None
                }
            },
            None => None,
        }
    }

    /// Takes what happened and says what to do next. Counts iterations and trials.
    pub fn advance<F: Arithmetic>(&mut self, e: NewtonEvent, stats: &mut FitStats) -> (a: NewtonAction)
        requires
            lawful::<F>(),
            old(self).wf(),
            old(self).expects(e),
        ensures
            (*final(self), a) == old(self).after::<F>(e),
            final(self).wf(),
            final(stats)@ == old(self).counted::<F>(e, old(stats)@),
    {
        let action: NewtonAction = match e {
            NewtonEvent::Evaluated { value, grad_norm } => {
                self.value = value;
                self.grad_norm = grad_norm;
                if self.dim == 0 {
                    self.finish(
                        Outcome { value, grad_norm: zero(), iterations: 0, converged: true },
                    )
                } else {
                    self.top::<F>(stats)
                }
            },
            NewtonEvent::StepBuilt { jump, descent } => {
                self.descent = descent;
                if jump {
                    self.phase = Phase::Jump;
                    NewtonAction::Probe(Candidate::Jump)
                } else {
                    self.phase = Phase::Full;
                    NewtonAction::Probe(Candidate::Full)
                }
            },
            NewtonEvent::Probed { trial, model_error } => {
                match self.probed::<F>(trial, model_error) {
                    Some(x) => {
                        self.phase = Phase::Refresh;
                        self.accepted = x;
                        NewtonAction::Refresh
                    },
                    None => self.rejected(),
                }
            },
            NewtonEvent::Refreshed { value, grad_norm } => {
                self.iter = self.iter + 1;
                self.prev_value = self.value;
                self.value = value;
                self.grad_norm = grad_norm;
                self.top::<F>(stats)
            },
            NewtonEvent::RefreshFailed => {
                self.iter = self.iter + 1;
                self.prev_value = self.value;
                self.value = self.accepted;
                self.top::<F>(stats)
            },
            NewtonEvent::Classified(b) => {
                let out: Outcome = Outcome {
                    value: self.value,
                    grad_norm: self.grad_norm,
                    iterations: self.iter + 1,
                    converged: b,
                };
                self.finish(out)
            },
        };
        if let NewtonAction::Probe(_) = action {
            stats.bump_line_search_trial();
        }
        action
    }

    /// The tolerance under which an axis counts as dead at the current point:
    /// `1e-7 (|score| + 1)`.
    pub fn dim_tol<F: Arithmetic>(&self) -> (r: Double)
        requires
            lawful::<F>(),
        ensures
            r == times::<F>(plus::<F>(self.value.abs_spec(), one()), lit(DIM_TOL_REL)),
    {
        times::<F>(plus::<F>(self.value.abs(), one()), lit(DIM_TOL_REL))
    }

    /// Events the search can still take, at most.
    pub open spec fn budget(self) -> int {
        let left = self.opts.max_iters - self.iter;
        match self.phase {
            Phase::Start => self.opts.max_iters * 34 + 1,
            Phase::Build => left * 34,
            Phase::Jump => left * 34 - 1,
            Phase::Full => left * 34 - 2,
            Phase::Halve => left * 34 - 3 - self.failed,
            Phase::Refresh => left * 34 - 33,
            Phase::Classify => left * 34 - 33,
            Phase::Done => 0,
        }
    }
}

/// The steepest-descent direction `d` at the length of the last trial step, at
/// most 2.
pub open spec fn descent_step_of<F: Arithmetic>(last: Seq<Double>, d: Seq<Double>) -> Seq<Double> {
    scaled_of::<F>(
        d,
        over::<F>(l2_norm_of::<F>(last).min_spec(lit(MAX_S_STEP)), l2_norm_of::<F>(d)),
    )
}

/// The trial step that a candidate stands for, given the capped step, the step
/// with its jumps, the last trial step and the steepest-descent direction.
pub open spec fn trial_step_of<F: Arithmetic>(
    c: Candidate,
    capped: Seq<Double>,
    jump: Seq<Double>,
    last: Seq<Double>,
    descent: Seq<Double>,
) -> Seq<Double> {
    match c {
        Candidate::Jump => jump,
        Candidate::Full => capped,
        Candidate::Half => scaled_of::<F>(last, half()),
        Candidate::Descent => descent_step_of::<F>(last, descent),
    }
}

/// Builds the trial step of a candidate.
pub fn trial_step<F: Arithmetic>(
    c: Candidate,
    capped: &Vec<Double>,
    jump: &Vec<Double>,
    last: &Vec<Double>,
    descent: &Vec<Double>,
) -> (r: Vec<Double>)
    requires
        lawful::<F>(),
    ensures
        r@ == trial_step_of::<F>(c, capped@, jump@, last@, descent@),
{
    match c {
        Candidate::Jump => {
            let r: Vec<Double> = jump.clone();
            assert(r@ =~= jump@);
            r
        },
        Candidate::Full => {
            let r: Vec<Double> = capped.clone();
            assert(r@ =~= capped@);
            r
        },
        Candidate::Half => scaled::<F>(last, half()),
        Candidate::Descent => {
            let len: Double = l2_norm::<F>(last).min(lit(MAX_S_STEP));
            let factor: Double = over::<F>(len, l2_norm::<F>(descent));
            scaled::<F>(descent, factor)
        },
    }
}

/// The trial point of a step: the sum, moved into the box.
pub fn trial_point<F: Arithmetic>(theta: &Vec<Double>, step: &Vec<Double>, bnds: Option<&Bounds>) -> (r: Vec<Double>)
    requires
        lawful::<F>(),
        theta@.len() == step@.len(),
        bounds_ordered(bnds, theta@.len()),
    ensures
        r@ == clamp_point(vec_plus_of::<F>(theta@, step@), bnds),
{
    clamp_to_box(vec_plus::<F>(theta, step), bnds)
}

/// Every event of the expected kind is taken: the search stays within its bounds.
pub proof fn law_bounds_are_kept<F: Arithmetic>(s: NewtonRun, e: NewtonEvent)
    requires
        s.wf(),
        s.expects(e),
    ensures
        s.after::<F>(e).0.wf(),
        s.after::<F>(e).0.opts == s.opts,
        s.after::<F>(e).0.dim == s.dim,
{
}

/// Every event uses up budget, so a search ends after at most 34 events for each
/// permitted iteration and one for the start.
pub proof fn law_every_event_uses_budget<F: Arithmetic>(s: NewtonRun, e: NewtonEvent)
    requires
        s.wf(),
        s.expects(e),
    ensures
        0 <= s.after::<F>(e).0.budget() < s.budget(),
        s.after::<F>(e).1 is Finish <==> s.after::<F>(e).0.phase is Done,
{
}

/// The search after a sequence of events.
pub open spec fn run_through<F: Arithmetic>(s: NewtonRun, events: Seq<NewtonEvent>) -> NewtonRun
    decreases events.len(),
{
    if events.len() == 0 {
        s
    } else {
        run_through::<F>(s, events.drop_last()).after::<F>(events.last()).0
    }
}

/// Each event is of the kind that the search waits for when it comes.
pub open spec fn all_expected<F: Arithmetic>(s: NewtonRun, events: Seq<NewtonEvent>) -> bool
    decreases events.len(),
{
    events.len() == 0 || (all_expected::<F>(s, events.drop_last()) && run_through::<F>(
        s,
        events.drop_last(),
    ).expects(events.last()))
}

/// A search never runs longer than its iteration limit allows: the number of
/// events it can take is bounded, and the iterations it reports are at most the
/// limit.
pub proof fn law_search_is_bounded<F: Arithmetic>(s: NewtonRun, events: Seq<NewtonEvent>)
    requires
        s.wf(),
        s.phase is Start,
        all_expected::<F>(s, events),
    ensures
        events.len() <= s.opts.max_iters * 34 + 1,
        run_through::<F>(s, events).wf(),
        run_through::<F>(s, events).opts == s.opts,
        run_through::<F>(s, events).phase is Done ==> run_through::<F>(s, events).outcome.iterations
            <= s.opts.max_iters,
{
    lemma_budget_left::<F>(s, events);
}

proof fn lemma_budget_left<F: Arithmetic>(s: NewtonRun, events: Seq<NewtonEvent>)
    requires
        s.wf(),
        s.phase is Start,
        all_expected::<F>(s, events),
    ensures
        run_through::<F>(s, events).wf(),
        run_through::<F>(s, events).opts == s.opts,
        0 <= run_through::<F>(s, events).budget() <= s.opts.max_iters * 34 + 1 - events.len(),
    decreases events.len(),
{
    if events.len() > 0 {
        lemma_budget_left::<F>(s, events.drop_last());
        law_every_event_uses_budget::<F>(run_through::<F>(s, events.drop_last()), events.last());
        law_bounds_are_kept::<F>(run_through::<F>(s, events.drop_last()), events.last());
    }
}

/// The search moves only downhill: a trial point is accepted only if its score is
/// finite and below the bar under the current score.
pub proof fn law_only_improvements_are_accepted<F: Arithmetic>(s: NewtonRun, e: NewtonEvent)
    requires
        s.wf(),
        s.expects(e),
        s.after::<F>(e).1 is Refresh,
    ensures
        e matches NewtonEvent::Probed { trial: Some(x), .. } && x.finite() && x.below(
            s.improve_bar::<F>(),
        ) && s.after::<F>(e).0.accepted == x,
{
}

/// A quiet score never ends the search by itself: where the head of an iteration
/// ends it before the limit, the gradient is below its bar, three iterations have
/// passed and the score is at rest.
pub proof fn law_convergence_needs_a_small_gradient<F: Arithmetic>(s: NewtonRun)
    requires
        s.iter < s.opts.max_iters,
        s.at_top::<F>().1 is Finish,
    ensures
        s.grad_norm.below(score_bar::<F>(s.opts.grad_tol, s.value)),
        s.iter >= 3,
        !s.opts.reml_tol.below(s.rel_change::<F>()),
        s.at_top::<F>().0.outcome.converged,
{
}

/// One line search switches to steepest descent at most once, in one of the first
/// ten iterations and only where the direction has length.
pub proof fn law_descent_at_most_once<F: Arithmetic>(s: NewtonRun, e: NewtonEvent)
    requires
        s.wf(),
        s.expects(e),
        s.after::<F>(e).1 == NewtonAction::Probe(Candidate::Descent),
    ensures
        s.phase is Halve,
        !s.sd_used,
        s.after::<F>(e).0.sd_used,
        s.after::<F>(e).0.failed == 3,
        s.iter < 10,
        s.descent,
{
}

/// A search without parameters ends at its first evaluation, converged, without
/// an iteration.
pub proof fn law_nothing_to_search<F: Arithmetic>(s: NewtonRun, value: Double, grad_norm: Double)
    requires
        s.dim == 0,
        s.phase is Start,
    ensures
        s.after::<F>(NewtonEvent::Evaluated { value, grad_norm }).1 is Finish,
        s.after::<F>(NewtonEvent::Evaluated { value, grad_norm }).0.outcome == (Outcome {
            value,
            grad_norm: zero(),
            iterations: 0,
            converged: true,
        }),
{
}

/// A rejected jump costs one probe and nothing else: the full step is tried next
/// from the same point.
pub proof fn law_rejected_jump_falls_back<F: Arithmetic>(
    s: NewtonRun,
    trial: Option<Double>,
    model_error: Double,
)
    requires
        s.wf(),
        s.phase is Jump,
        !s.accepts::<F>(trial, model_error),
    ensures
        s.after::<F>(NewtonEvent::Probed { trial, model_error }) == (
            NewtonRun { phase: Phase::Full, ..s },
            NewtonAction::Probe(Candidate::Full),
        ),
{
}

/// Where the evaluation at an accepted point fails, the search goes on from there
/// with the probed score and the gradient it had.
pub proof fn law_failed_refresh_keeps_the_step<F: Arithmetic>(s: NewtonRun)
    requires
        s.wf(),
        s.phase is Refresh,
    ensures
        s.after::<F>(NewtonEvent::RefreshFailed) == s.after::<F>(
            NewtonEvent::Refreshed { value: s.accepted, grad_norm: s.grad_norm },
        ),
        s.after::<F>(NewtonEvent::RefreshFailed).0.prev_value == s.value,
{
}

/// The factor after `n` halvings is below the factor after fewer.
pub proof fn law_alpha_falls(m: int, n: int)
    requires
        0 <= m < n <= MAX_HALF,
    ensures
        alpha_after(n).below(alpha_after(m)),
        alpha_after(0) == one(),
        alpha_after(n).finite(),
{
}

} // verus!
