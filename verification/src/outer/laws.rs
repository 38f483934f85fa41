//! Laws of whole searches: what holds of every course that
//! [`NewtonWithHalving::minimize`](crate::outer::NewtonWithHalving::minimize) can
//! take.

use vstd::prelude::*;

use crate::arith::{minus, rounded, times, Arithmetic};
use crate::dense::vec_plus_of;
use crate::double::{lit, zero, Double, E_M10};
use crate::error::GamrsError;
use crate::inner::linalg::LinearSolver;
use crate::inner::pirls::curvature::ObservedPdCounts;
use crate::inner::solver::InnerSolver;
use crate::inner::GaussianInnerFit;
use crate::outer::minimize::{
    begins, borrowed, course, fit_of, follows, happened, law_clamp_twice, limits_fit, recorded,
    searched, Evaluation, OuterFit, ScoreDerivatives, ScoreMemory, Search,
};
use crate::outer::newton::{NewtonAction, NewtonEvent, NewtonRun};
use crate::outer::step::{clamp_point, Bounds};
use crate::outer::NewtonOpts;
use crate::score::envelope::EnvelopeScore;
use crate::score::profile::Profile;
use crate::score::shape_aware::builder::ShapeInnerBuilder;
use crate::score::shape_aware::evaluate::AcceptedState;
use crate::score::shape_aware::gradient::FrozenBetaCtx;
use crate::score::shape_aware::score::ShapeAwareEnvelopeScore;
use crate::stats::count_up;
use crate::traits::{DenseBackend, Family, Link, Loss, ShapeLoss, VarianceFn};

verus! {

/// Probing a point and evaluating it give one score.
pub open spec fn consistent<F: Arithmetic, S: ScoreDerivatives<F>>(score: S) -> bool {
    forall|
        m1: ScoreMemory<S::Accepted>,
        m2: ScoreMemory<S::Accepted>,
        m3: ScoreMemory<S::Accepted>,
        m4: ScoreMemory<S::Accepted>,
        t: Seq<Double>,
        v: Double,
        ev: Evaluation,
    |
        #![trigger score.values(m1, t, Ok(v), m2), score.evaluates(m3, t, Ok(ev), m4)]
        score.values(m1, t, Ok(v), m2) && score.evaluates(m3, t, Ok(ev), m4) ==> v == ev.value
}

/// The bar under a score that an improvement has to pass is not above the score.
pub proof fn law_bar_is_not_above_the_score<F: Arithmetic>(run: NewtonRun)
    requires
        rounded::<F>(),
        run.value.finite(),
    ensures
        run.improve_bar::<F>().at_most(run.value),
{
    let size = run.value.abs_spec();
    assert(times::<F>(size, lit(E_M10)) == times::<F>(lit(E_M10), size));
    let t = times::<F>(lit(E_M10), size);
    assert(zero().at_most(t) && t.at_most(size));
    assert(t.finite());
    assert(minus::<F>(run.value, t).at_most(run.value));
}

/// Between events: the score is a number not above `top`, an accepted point was
/// probed with a score not above the current one, and a finished search reports
/// its score.
pub open spec fn descends<F: Arithmetic, S: ScoreDerivatives<F>>(score: S, s: Search<S::Accepted>, top: Double) -> bool {
    &&& s.run.value.finite()
    &&& s.run.value.at_most(top)
    &&& s.next is Finish ==> s.run.outcome.value == s.run.value
    &&& s.next is Refresh ==> s.run.accepted.finite() && s.run.accepted.at_most(s.run.value)
        && probed_before::<F, S>(score, s.trial@, s.run.accepted)
}

/// The score was probed at a point and gave `v`.
pub open spec fn probed_before<F: Arithmetic, S: ScoreDerivatives<F>>(score: S, t: Seq<Double>, v: Double) -> bool {
    exists|m1: ScoreMemory<S::Accepted>, m2: ScoreMemory<S::Accepted>| #[trigger]
        score.values(m1, t, Ok(v), m2)
}

proof fn lemma_descends<F: Arithmetic, D: DenseBackend, S: ScoreDerivatives<F>>(
    score: S,
    caps: Option<Vec<Double>>,
    bnds: Option<Bounds>,
    s: Search<S::Accepted>,
    t: Search<S::Accepted>,
    top: Double,
)
    requires
        rounded::<F>(),
        consistent::<F, S>(score),
        descends::<F, S>(score, s, top),
        follows::<F, D, S>(score, caps, bnds, s, t),
    ensures
        descends::<F, S>(score, t, top),
{
    let (e, m) = choose|e: NewtonEvent, m: ScoreMemory<S::Accepted>| #[trigger]
        happened::<F, D, S>(score, caps, bnds, s, e, m, t) && (t.run, t.next) == s.run.after::<F>(e)
            && recorded::<F, S::Accepted>(s.run, e, m, t.memory);
    law_bar_is_not_above_the_score::<F>(s.run);
    match s.next {
        NewtonAction::Probe(_) => {
            let r = choose|r: Result<Double, GamrsError>| #[trigger]
                score.values(s.memory, t.trial@, r, m) && e is Probed && (match r {
                    Ok(x) => e->trial == Some(x),
                    Err(_) => e->trial is None,
                });
            if t.next is Refresh {
                assert(r == Ok::<Double, GamrsError>(t.run.accepted));
                assert(probed_before::<F, S>(score, t.trial@, t.run.accepted));
            }
        },
        NewtonAction::Refresh => {
            let (m1, m2) = choose|
                m1: ScoreMemory<S::Accepted>,
                m2: ScoreMemory<S::Accepted>,
            | #[trigger]
                score.values(m1, s.trial@, Ok(s.run.accepted), m2);
            assert(t.run.value == s.run.accepted);
        },
        _ => {},
    }
}

/// The score never rises: at every state of a search it is at most the score at
/// the start. This is asked of a score that says one thing of a point, at a start
/// with a finite score.
pub proof fn law_score_never_rises<F: Arithmetic, D: DenseBackend, S: ScoreDerivatives<F>>(
    score: S,
    opts: NewtonOpts,
    caps: Option<Vec<Double>>,
    bnds: Option<Bounds>,
    theta0: Seq<Double>,
    m0: ScoreMemory<S::Accepted>,
    states: Seq<Search<S::Accepted>>,
)
    requires
        rounded::<F>(),
        consistent::<F, S>(score),
        course::<F, D, S>(score, opts, caps, bnds, theta0, m0, states),
        states[0].run.value.finite(),
    ensures
        states.last().run.value.at_most(states[0].run.value),
        descends::<F, S>(score, states.last(), states[0].run.value),
    decreases states.len(),
{
    if states.len() == 1 {
        assert(begins::<F, S>(score, opts, bnds, theta0, m0, states[0]));
    } else {
        let front = states.drop_last();
        assert(front[0] == states[0]);
        law_score_never_rises::<F, D, S>(score, opts, caps, bnds, theta0, m0, front);
        lemma_descends::<F, D, S>(
            score,
            caps,
            bnds,
            front.last(),
            states.last(),
            states[0].run.value,
        );
    }
}

/// The score that an evaluation at the start gives, in the box of the score.
pub open spec fn starts_at<F: Arithmetic, S: ScoreDerivatives<F>>(
    score: S,
    theta0: Seq<Double>,
    m0: ScoreMemory<S::Accepted>,
    bnds: Option<Bounds>,
    ev: Evaluation,
) -> bool {
    exists|m: ScoreMemory<S::Accepted>| #[trigger]
        score.evaluates(m0, clamp_point(theta0, borrowed(bnds)), Ok(ev), m)
}

/// The result of a search is not worse than its start: its score is at most the
/// one that was evaluated at the start, moved into the box.
pub proof fn law_result_is_not_worse_than_the_start<F: Arithmetic, D: DenseBackend, S: ScoreDerivatives<F>>(
    score: S,
    opts: NewtonOpts,
    theta0: Seq<Double>,
    m0: ScoreMemory<S::Accepted>,
    fit: OuterFit,
    m: ScoreMemory<S::Accepted>,
)
    requires
        rounded::<F>(),
        consistent::<F, S>(score),
        searched::<F, D, S>(score, opts, theta0, m0, fit, m),
        forall|bnds: Option<Bounds>, ev: Evaluation| #[trigger]
            starts_at::<F, S>(score, theta0, m0, bnds, ev) ==> ev.value.finite(),
    ensures
        exists|bnds: Option<Bounds>, ev: Evaluation| #[trigger]
            starts_at::<F, S>(score, theta0, m0, bnds, ev) && fit.value.at_most(ev.value),
{
    let (caps, bnds, states) = choose|
        caps: Option<Vec<Double>>,
        bnds: Option<Bounds>,
        states: Seq<Search<S::Accepted>>,
    |
        score.limited(caps, bnds) && limits_fit(caps, bnds, theta0.len()) && fit_of(
            states.last(),
            fit,
        ) && m == states.last().memory && #[trigger] course::<F, D, S>(
            score,
            opts,
            caps,
            bnds,
            theta0,
            m0,
            states,
        ) && clamp_point(fit.theta@, borrowed(bnds)) == fit.theta@;
    lemma_first::<F, D, S>(score, opts, caps, bnds, theta0, m0, states);
    let first = states[0];
    let (ev, m1) = choose|ev: Evaluation, m1: ScoreMemory<S::Accepted>|
        #[trigger] score.evaluates(m0, first.theta@, Ok(ev), m1) && first.run.value == ev.value;
    assert(starts_at::<F, S>(score, theta0, m0, bnds, ev));
    law_score_never_rises::<F, D, S>(score, opts, caps, bnds, theta0, m0, states);
}

proof fn lemma_first<F: Arithmetic, D: DenseBackend, S: ScoreDerivatives<F>>(
    score: S,
    opts: NewtonOpts,
    caps: Option<Vec<Double>>,
    bnds: Option<Bounds>,
    theta0: Seq<Double>,
    m0: ScoreMemory<S::Accepted>,
    states: Seq<Search<S::Accepted>>,
)
    requires
        course::<F, D, S>(score, opts, caps, bnds, theta0, m0, states),
    ensures
        states.len() > 0,
        begins::<F, S>(score, opts, bnds, theta0, m0, states[0]),
        exists|ev: Evaluation, m1: ScoreMemory<S::Accepted>|
            #[trigger] score.evaluates(m0, states[0].theta@, Ok(ev), m1) && states[0].run.value
                == ev.value,
    decreases states.len(),
{
    if states.len() == 1 {
    } else {
        lemma_first::<F, D, S>(score, opts, caps, bnds, theta0, m0, states.drop_last());
        assert(states.drop_last()[0] == states[0]);
    }
}

/// A point is one that clamping to the box leaves where it is.
pub open spec fn in_box(t: Seq<Double>, bnds: Option<Bounds>) -> bool {
    clamp_point(t, borrowed(bnds)) == t
}

/// The points of state `i` of a course lie in the box: the one it stands at, and
/// the one that was probed to get there, if one was.
pub open spec fn points_in_box<A>(states: Seq<Search<A>>, bnds: Option<Bounds>, i: int) -> bool {
    &&& in_box(states[i].theta@, bnds)
    &&& 0 < i && states[i - 1].next is Probe ==> in_box(states[i].trial@, bnds)
}

/// The point stands in the box, and so does one that is about to be moved to.
pub open spec fn boxed<A>(s: Search<A>, bnds: Option<Bounds>, n: nat) -> bool {
    &&& s.theta@.len() == n
    &&& in_box(s.theta@, bnds)
    &&& s.next is Refresh ==> s.trial@.len() == n && in_box(s.trial@, bnds)
}

proof fn lemma_boxed<F: Arithmetic, D: DenseBackend, S: ScoreDerivatives<F>>(
    score: S,
    caps: Option<Vec<Double>>,
    bnds: Option<Bounds>,
    s: Search<S::Accepted>,
    t: Search<S::Accepted>,
    n: nat,
)
    requires
        limits_fit(caps, bnds, n),
        boxed(s, bnds, n),
        follows::<F, D, S>(score, caps, bnds, s, t),
    ensures
        boxed(t, bnds, n),
        s.next is Probe ==> in_box(t.trial@, bnds),
{
    let (e, m) = choose|e: NewtonEvent, m: ScoreMemory<S::Accepted>| #[trigger]
        happened::<F, D, S>(score, caps, bnds, s, e, m, t) && (t.run, t.next) == s.run.after::<F>(e)
            && recorded::<F, S::Accepted>(s.run, e, m, t.memory);
    if s.next is Probe {
        law_clamp_twice(vec_plus_of::<F>(s.theta@, t.last@), bnds);
    }
}

/// Every point at which a search asks the score lies in the box: the start, every
/// trial point, and every point it moves to.
pub proof fn law_search_stays_in_the_box<F: Arithmetic, D: DenseBackend, S: ScoreDerivatives<F>>(
    score: S,
    opts: NewtonOpts,
    caps: Option<Vec<Double>>,
    bnds: Option<Bounds>,
    theta0: Seq<Double>,
    m0: ScoreMemory<S::Accepted>,
    states: Seq<Search<S::Accepted>>,
)
    requires
        limits_fit(caps, bnds, theta0.len()),
        course::<F, D, S>(score, opts, caps, bnds, theta0, m0, states),
    ensures
        forall|i: int| 0 <= i < states.len() ==> #[trigger] points_in_box(states, bnds, i),
        boxed(states.last(), bnds, theta0.len()),
    decreases states.len(),
{
    if states.len() == 1 {
        law_clamp_twice(theta0, bnds);
        assert(begins::<F, S>(score, opts, bnds, theta0, m0, states[0]));
        assert(!(states[0].next is Refresh));
    } else {
        let front = states.drop_last();
        law_search_stays_in_the_box::<F, D, S>(score, opts, caps, bnds, theta0, m0, front);
        lemma_boxed::<F, D, S>(score, caps, bnds, front.last(), states.last(), theta0.len());
        assert forall|i: int| 0 <= i < states.len() implies #[trigger] points_in_box(
            states,
            bnds,
            i,
        ) by {
            if i < front.len() {
                assert(points_in_box(front, bnds, i));
                assert(states[i] == front[i]);
                if 0 < i {
                    assert(states[i - 1] == front[i - 1]);
                }
            } else {
                assert(states[i] == states.last());
                assert(states[i - 1] == front.last());
            }
        }
    }
}

/// Two memories with one count of trials.
pub open spec fn same_trials<A>(a: ScoreMemory<A>, b: ScoreMemory<A>) -> bool {
    match a.stats {
        Some(x) => b.stats matches Some(y) && y@.line_search_trials == x@.line_search_trials,
        None => b.stats is None,
    }
}

/// The score leaves the count of trials alone.
pub open spec fn leaves_trials<F: Arithmetic, S: ScoreDerivatives<F>>(score: S) -> bool {
    &&& forall|
        m: ScoreMemory<S::Accepted>,
        t: Seq<Double>,
        r: Result<Double, GamrsError>,
        after: ScoreMemory<S::Accepted>,
    | #[trigger]
        score.values(m, t, r, after) ==> same_trials(m, after)
    &&& forall|
        m: ScoreMemory<S::Accepted>,
        t: Seq<Double>,
        r: Result<Evaluation, GamrsError>,
        after: ScoreMemory<S::Accepted>,
    | #[trigger]
        score.evaluates(m, t, r, after) ==> same_trials(m, after)
}

/// The states of a course from which a trial point is probed.
pub open spec fn probing<A>(states: Seq<Search<A>>) -> nat
    decreases states.len(),
{
    if states.len() == 0 {
        0
    } else {
        probing(states.drop_last()) + if states.last().next is Probe {
            1nat
        } else {
            0nat
        }
    }
}

/// A counter after `k` single events.
pub open spec fn counted_up(n: usize, k: nat) -> usize
    decreases k,
{
    if k == 0 {
        n
    } else {
        count_up(counted_up(n, (k - 1) as nat), 1)
    }
}

/// The trials are counted one by one: a search adds one for every state from which
/// it probes, and nothing else. A finished search has made all those probes.
pub proof fn law_trials_are_counted<F: Arithmetic, D: DenseBackend, S: ScoreDerivatives<F>>(
    score: S,
    opts: NewtonOpts,
    caps: Option<Vec<Double>>,
    bnds: Option<Bounds>,
    theta0: Seq<Double>,
    m0: ScoreMemory<S::Accepted>,
    states: Seq<Search<S::Accepted>>,
)
    requires
        leaves_trials::<F, S>(score),
        course::<F, D, S>(score, opts, caps, bnds, theta0, m0, states),
    ensures
        match m0.stats {
            Some(x) => states.last().memory.stats matches Some(y) && y@.line_search_trials
                == counted_up(x@.line_search_trials, probing(states)),
            None => states.last().memory.stats is None,
        },
    decreases states.len(),
{
    if states.len() == 1 {
        let s = states[0];
        assert(begins::<F, S>(score, opts, bnds, theta0, m0, s));
        assert(states.drop_last() =~= Seq::<Search<S::Accepted>>::empty());
        assert(probing(states.drop_last()) == 0);
        assert(!(s.next is Probe));
    } else {
        let front = states.drop_last();
        law_trials_are_counted::<F, D, S>(score, opts, caps, bnds, theta0, m0, front);
        let s = front.last();
        let t = states.last();
        let (e, m) = choose|e: NewtonEvent, m: ScoreMemory<S::Accepted>| #[trigger]
            happened::<F, D, S>(score, caps, bnds, s, e, m, t) && (t.run, t.next) == s.run.after::<F>(e)
                && recorded::<F, S::Accepted>(s.run, e, m, t.memory);
        assert(same_trials(s.memory, m));
        if t.next is Probe {
            assert(probing(states) == probing(front) + 1);
        } else {
            assert(probing(states) == probing(front));
        }
    }
}

/// The score over smoothing parameters leaves the count of trials alone, so its
/// searches count their trials one by one.
pub proof fn law_envelope_score_leaves_trials<
    F: Arithmetic,
    L: Loss,
    I: InnerSolver<F, D, B>,
    P: Profile<F, L>,
    D: DenseBackend,
    B: LinearSolver,
>(score: EnvelopeScore<L, I, P, D, B>)
    ensures
        leaves_trials::<F, EnvelopeScore<L, I, P, D, B>>(score),
{
}

/// The score over smoothing and shape parameters leaves the count of trials alone,
/// so its searches count their trials one by one.
pub proof fn law_shape_score_leaves_trials<
    F: Arithmetic,
    L: ShapeLoss<K, V>,
    K: Link,
    V: VarianceFn,
    C: ShapeInnerBuilder<F, D, B, L, K, V>,
    P: Profile<F, L>,
    D: DenseBackend,
    B: LinearSolver,
>(score: ShapeAwareEnvelopeScore<L, K, V, C, P, D, B>)
    ensures
        leaves_trials::<F, ShapeAwareEnvelopeScore<L, K, V, C, P, D, B>>(score),
{
}

/// A point has one score: whatever is asked twice is answered alike.
pub open spec fn one_score<
    F: Arithmetic,
    L: ShapeLoss<K, V>,
    K: Link,
    V: VarianceFn,
    C: ShapeInnerBuilder<F, D, B, L, K, V>,
    P: Profile<F, L>,
    D: DenseBackend,
    B: LinearSolver,
>(score: ShapeAwareEnvelopeScore<L, K, V, C, P, D, B>) -> bool {
    forall|
        t: Seq<Double>,
        v: Double,
        w: Double,
        b1: ObservedPdCounts,
        a1: ObservedPdCounts,
        b2: ObservedPdCounts,
        a2: ObservedPdCounts,
    |
        #![trigger score.value_counted::<F>(t, v, b1, a1), score.value_counted::<F>(t, w, b2, a2)]
        score.value_counted::<F>(t, v, b1, a1) && score.value_counted::<F>(t, w, b2, a2) ==> v == w
}

/// The score over smoothing and shape parameters is probed and evaluated in one
/// way: from a fit that starts afresh, so its searches never raise it where
/// answers can be repeated.
pub proof fn law_shape_score_is_consistent<
    F: Arithmetic,
    L: ShapeLoss<K, V>,
    K: Link,
    V: VarianceFn,
    C: ShapeInnerBuilder<F, D, B, L, K, V>,
    P: Profile<F, L>,
    D: DenseBackend,
    B: LinearSolver,
>(score: ShapeAwareEnvelopeScore<L, K, V, C, P, D, B>)
    requires
        one_score::<F, L, K, V, C, P, D, B>(score),
    ensures
        consistent::<F, ShapeAwareEnvelopeScore<L, K, V, C, P, D, B>>(score),
{
    assert forall|
        m1: ScoreMemory<AcceptedState>,
        m2: ScoreMemory<AcceptedState>,
        m3: ScoreMemory<AcceptedState>,
        m4: ScoreMemory<AcceptedState>,
        t: Seq<Double>,
        v: Double,
        ev: Evaluation,
    |
        #![trigger ScoreDerivatives::<F>::values(&score, m1, t, Ok::<Double, GamrsError>(v), m2), ScoreDerivatives::<F>::evaluates(&score, m3, t, Ok::<Evaluation, GamrsError>(ev), m4)]
        ScoreDerivatives::<F>::values(&score, m1, t, Ok::<Double, GamrsError>(v), m2)
            && ScoreDerivatives::<F>::evaluates(&score, m3, t, Ok::<Evaluation, GamrsError>(ev), m4) implies v
        == ev.value by {
        let (fit, family, c, u, w) = choose|
            fit: GaussianInnerFit<B>,
            family: Family<L, K, V>,
            c: FrozenBetaCtx,
            u: ObservedPdCounts,
            w: ObservedPdCounts,
        |
            score.fitted_at::<F>(t, fit, family) && score.scores_counted::<F>(
                fit,
                family,
                score.rho_of(t),
                ev.value,
                m3.observed,
                u,
            ) && #[trigger] score.grad_there::<F>(t, fit, family, None, c, ev.grad@, u, w)
                && score.joint_hessian::<F>(t, fit, family, c, ev.hess@, w, m4.observed);
        assert(score.value_counted::<F>(t, ev.value, m3.observed, u));
        assert(score.value_counted::<F>(t, v, m1.observed, m2.observed));
    }
}

} // verus!
