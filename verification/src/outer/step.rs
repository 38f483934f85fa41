//! Step construction and exit classification for the outer Newton search: which
//! axes move, what a box does to a step, where a concave axis jumps, and whether
//! a point from which no step improves counts as an optimum.
//!
//! Everything here is a function of its arguments. The order is fixed by the
//! search: build the direction, project it onto the box, then cap it.

use vstd::prelude::*;

use crate::arith::{lawful, minus, over, plus, power, root, rounded, times, total, Arithmetic};
use crate::dense::{
    dot, dot_of, mat_vec, mat_vec_of, scaled, scaled_of, symmetrised, symmetrised_of,
};
use crate::double::{
    half, inf_norm, inf_norm_spec, inf_norm_upto, law_inf_norm_attained, law_inf_norm_bounds, lit,
    one, two, zero, Double, EPSILON, E_M12, E_M3, E_M9, FOUR, SEVEN_TENTHS, TENTH,
};
use crate::matrix::{fill_vec, grid, Matrix};
use crate::traits::{checked_eigh, checked_solve, eigh_answered, solve_answered, DenseBackend};

verus! {

/// Bits of the largest error of the quadratic model that a step may show: 0.8.
pub const QERROR_THRESH: u64 = 0x3fe9_9999_9999_999a;

/// Bits of the noise guard in the denominator of the quadratic-model error,
/// relative to the score: 1e-6.
pub const MGCV_CONV_TOL: u64 = 0x3eb0_c6f7_a0b5_ed8d;

/// Bits of the longest steepest-descent step: 2.
pub const MAX_S_STEP: u64 = 0x4000_0000_0000_0000;

/// Bits of the tolerance under which an axis counts as dead, relative to the
/// score: 1e-7.
pub const DIM_TOL_REL: u64 = 0x3e7a_d7f2_9abc_af48;

/// Per-axis bounds, lower and upper.
pub type Bounds = Vec<(Double, Double)>;

/// `rel max(|t|, 1)`: a distance relative to an axis value.
pub open spec fn near_eps<F: Arithmetic>(rel: Double, t: Double) -> Double {
    times::<F>(rel, t.abs_spec().max_spec(one()))
}

/// `a` lies within `rel max(|t|, 1)` of the axis value `t`, measured as `|x|`.
pub open spec fn within<F: Arithmetic>(x: Double, rel: Double, t: Double) -> bool {
    x.abs_spec().at_most(near_eps::<F>(rel, t))
}

/// The axis sits on its upper bound.
pub open spec fn on_upper<F: Arithmetic>(t: Double, hi: Double) -> bool {
    within::<F>(minus::<F>(hi, t), lit(E_M12), t)
}

/// The axis sits on its lower bound.
pub open spec fn on_lower<F: Arithmetic>(t: Double, lo: Double) -> bool {
    within::<F>(minus::<F>(t, lo), lit(E_M12), t)
}

/// A component that leads out of the box from a bound.
pub open spec fn outward<F: Arithmetic>(s: Double, t: Double, b: (Double, Double)) -> bool {
    (on_upper::<F>(t, b.1) && zero().below(s)) || (on_lower::<F>(t, b.0) && s.below(zero()))
}

/// Whether `|x|` is at most `rel max(|t|, 1)`.
fn is_within<F: Arithmetic>(x: Double, rel: Double, t: Double) -> (b: bool)
    requires
        lawful::<F>(),
    ensures
        b == within::<F>(x, rel, t),
{
    x.abs().le(times::<F>(rel, t.abs().max(one())))
}

/// Whether the axis sits on its upper bound: within 1e-12 of it, relative to the
/// axis value.
pub fn at_upper<F: Arithmetic>(t: Double, hi: Double) -> (b: bool)
    requires
        lawful::<F>(),
    ensures
        b == on_upper::<F>(t, hi),
{
    is_within::<F>(minus::<F>(hi, t), lit(E_M12), t)
}

/// Whether the axis sits on its lower bound.
pub fn at_lower<F: Arithmetic>(t: Double, lo: Double) -> (b: bool)
    requires
        lawful::<F>(),
    ensures
        b == on_lower::<F>(t, lo),
{
    is_within::<F>(minus::<F>(t, lo), lit(E_M12), t)
}

/// Whether a component leads out of the box from a bound.
fn pushes_out<F: Arithmetic>(s: Double, t: Double, b: (Double, Double)) -> (r: bool)
    requires
        lawful::<F>(),
    ensures
        r == outward::<F>(s, t, b),
{
    (at_upper::<F>(t, b.1) && zero().lt(s)) || (at_lower::<F>(t, b.0) && s.lt(zero()))
}

/// Axis `i` carries a gradient or a curvature above the tolerance.
pub open spec fn axis_live(g: Seq<Double>, h: Seq<Seq<Double>>, dim_tol: Double, i: int) -> bool {
    dim_tol.below(g[i].abs_spec()) || dim_tol.below(h[i][i].abs_spec())
}

/// The live axes among the first `n`, in order.
pub open spec fn live_upto(g: Seq<Double>, h: Seq<Seq<Double>>, dim_tol: Double, n: nat) -> Seq<usize>
    decreases n,
{
    if n == 0 {
        Seq::empty()
    } else {
        let before = live_upto(g, h, dim_tol, (n - 1) as nat);
        if axis_live(g, h, dim_tol, n - 1) {
            before.push((n - 1) as usize)
        } else {
            before
        }
    }
}

/// The last axis of largest gradient magnitude among the first `n`; 0 if there is
/// none. NaN ranks above every number.
pub open spec fn steepest_upto(g: Seq<Double>, n: nat) -> int
    decreases n,
{
    if n <= 1 {
        0
    } else {
        let best = steepest_upto(g, (n - 1) as nat);
        if g[best].magnitude() <= g[n - 1].magnitude() {
            n - 1
        } else {
            best
        }
    }
}

/// The axes a step moves: the live ones, or the steepest one where none is live.
pub open spec fn active_spec(g: Seq<Double>, h: Seq<Seq<Double>>, dim_tol: Double) -> Seq<usize> {
    let live = live_upto(g, h, dim_tol, g.len());
    if live.len() == 0 {
        seq![steepest_upto(g, g.len()) as usize]
    } else {
        live
    }
}

/// The steepest axis is an axis, none is steeper, and those behind it are less
/// steep.
pub proof fn law_steepest(g: Seq<Double>, n: nat)
    requires
        0 < n <= g.len(),
    ensures
        0 <= steepest_upto(g, n) < n,
        forall|i: int|
            0 <= i < n ==> (#[trigger] g[i]).magnitude() <= g[steepest_upto(g, n)].magnitude(),
        forall|i: int|
            steepest_upto(g, n) < i < n ==> (#[trigger] g[i]).magnitude() < g[steepest_upto(
                g,
                n,
            )].magnitude(),
    decreases n,
{
    if n > 1 {
        law_steepest(g, (n - 1) as nat);
    }
}

/// The list of live axes is strictly increasing and holds an axis exactly if the
/// axis is live.
pub proof fn law_live_axes(g: Seq<Double>, h: Seq<Seq<Double>>, dim_tol: Double, n: nat)
    requires
        n <= g.len() <= usize::MAX,
    ensures
        live_upto(g, h, dim_tol, n).len() <= n,
        forall|k: int|
            0 <= k < live_upto(g, h, dim_tol, n).len() ==> {
                &&& (#[trigger] live_upto(g, h, dim_tol, n)[k]) < n
                &&& axis_live(g, h, dim_tol, live_upto(g, h, dim_tol, n)[k] as int)
            },
        forall|k: int, m: int|
            0 <= k < m < live_upto(g, h, dim_tol, n).len() ==> live_upto(g, h, dim_tol, n)[k]
                < live_upto(g, h, dim_tol, n)[m],
        forall|i: int|
            0 <= i < n && axis_live(g, h, dim_tol, i) ==> live_upto(g, h, dim_tol, n).contains(
                i as usize,
            ),
    decreases n,
{
    if n > 0 {
        let before = live_upto(g, h, dim_tol, (n - 1) as nat);
        let here = live_upto(g, h, dim_tol, n);
        law_live_axes(g, h, dim_tol, (n - 1) as nat);
        assert forall|i: int| 0 <= i < n && axis_live(g, h, dim_tol, i) implies here.contains(
            i as usize,
        ) by {
            if i == n - 1 {
                assert(here[here.len() - 1] == i as usize);
            } else {
                assert(before.contains(i as usize));
                let k = choose|k: int| 0 <= k < before.len() && before[k] == i as usize;
                assert(here[k] == i as usize);
            }
        }
    }
}

/// A step always moves some axis, and only axes there are, each once.
pub proof fn law_active_axes(g: Seq<Double>, h: Seq<Seq<Double>>, dim_tol: Double)
    requires
        0 < g.len() <= usize::MAX,
    ensures
        active_spec(g, h, dim_tol).len() > 0,
        forall|k: int|
            0 <= k < active_spec(g, h, dim_tol).len() ==> (#[trigger] active_spec(g, h, dim_tol)[k]) < g.len(),
        forall|k: int, m: int|
            0 <= k < m < active_spec(g, h, dim_tol).len() ==> active_spec(g, h, dim_tol)[k]
                < active_spec(g, h, dim_tol)[m],
{
    law_live_axes(g, h, dim_tol, g.len());
    law_steepest(g, g.len());
}

/// The axes the Newton step moves: those whose gradient or curvature exceeds
/// `dim_tol` in absolute value, in order. Where there is none, the last axis of
/// largest absolute gradient alone (axis 0 of an empty gradient).
pub fn active_axes(g: &Vec<Double>, h: &Matrix, dim_tol: Double) -> (r: Vec<usize>)
    requires
        h.square(g@.len()),
    ensures
        r@ == active_spec(g@, h@, dim_tol),
{
    let mut live: Vec<usize> = Vec::new();
    let mut best: usize = 0;
    for i in 0..g.len()
        invariant
            h.square(g@.len()),
            live@ == live_upto(g@, h@, dim_tol, i as nat),
            best == steepest_upto(g@, i as nat),
            i > 0 ==> best < i,
            i == 0 ==> best == 0,
    {
        if dim_tol.lt(g[i].abs()) || dim_tol.lt(h.get(i, i).abs()) {
            live.push(i);
        }
        if i > 0 {
            if g[best].abs().bits <= g[i].abs().bits {
                best = i;
            }
        }
    }
    if live.len() == 0 {
        let mut only: Vec<usize> = Vec::new();
        only.push(best);
        assert(only@ =~= seq![best]);
        return only;
    }
    live
}

/// Every position in `active` names one of `n` axes.
pub open spec fn names_axes(active: Seq<usize>, n: nat) -> bool {
    forall|k: int| 0 <= k < active.len() ==> (#[trigger] active[k]) < n
}

/// Curvature and gradient on the active axes, scaled by the root of each axis's
/// own curvature.
pub struct Preconditioned {
    /// Scale of each active axis.
    pub diag: Vec<Double>,
    /// Scaled curvature.
    pub h: Matrix,
    /// Scaled gradient.
    pub g: Vec<Double>,
}

/// The scale of axis `a`: the root of its absolute curvature, at least the root
/// of the floor.
pub open spec fn axis_scale<F: Arithmetic>(h: Seq<Seq<Double>>, a: int, hess_floor: Double) -> Double {
    root::<F>(h[a][a].abs_spec()).max_spec(root::<F>(hess_floor))
}

/// The scales of the active axes.
pub open spec fn scales_of<F: Arithmetic>(h: Seq<Seq<Double>>, active: Seq<usize>, hess_floor: Double) -> Seq<
    Double,
> {
    Seq::new(active.len(), |k: int| axis_scale::<F>(h, active[k] as int, hess_floor))
}

/// The curvature on the active axes, scaled.
pub open spec fn scaled_curvature<F: Arithmetic>(h: Seq<Seq<Double>>, active: Seq<usize>, diag: Seq<Double>) -> Seq<
    Seq<Double>,
> {
    grid(
        active.len(),
        active.len(),
        |i: int, j: int|
            over::<F>(h[active[i] as int][active[j] as int], times::<F>(diag[i], diag[j])),
    )
}

/// The gradient on the active axes, scaled.
pub open spec fn scaled_slope<F: Arithmetic>(g: Seq<Double>, active: Seq<usize>, diag: Seq<Double>) -> Seq<Double> {
    Seq::new(active.len(), |k: int| over::<F>(g[active[k] as int], diag[k]))
}

/// Restricts curvature and gradient to the active axes and scales them:
/// `H_ab / (d_a d_b)` and `g_a / d_a`, where `d` is the root of the absolute
/// curvature, at least the root of `hess_floor`.
pub fn precondition<F: Arithmetic>(g: &Vec<Double>, h: &Matrix, active: &Vec<usize>, hess_floor: Double) -> (r: Preconditioned)
    requires
        lawful::<F>(),
        h.square(g@.len()),
        names_axes(active@, g@.len()),
    ensures
        r.diag@ == scales_of::<F>(h@, active@, hess_floor),
        r.h.square(active@.len()),
        r.h@ == scaled_curvature::<F>(h@, active@, r.diag@),
        r.g@ == scaled_slope::<F>(g@, active@, r.diag@),
{
    let n: usize = active.len();
    let floor_root: Double = root::<F>(hess_floor);
    let scale = |k: usize| -> (v: Double)
        requires
            k < active@.len(),
        ensures
            v == axis_scale::<F>(h@, active@[k as int] as int, hess_floor),
        { root::<F>(h.get(active[k], active[k]).abs()).max(floor_root) };
    let diag: Vec<Double> = fill_vec(n, scale);
    assert(diag@ =~= scales_of::<F>(h@, active@, hess_floor));
    let entry = |i: usize, j: usize| -> (v: Double)
        requires
            i < active@.len(),
            j < active@.len(),
        ensures
            v == over::<F>(
                h@[active@[i as int] as int][active@[j as int] as int],
                times::<F>(diag@[i as int], diag@[j as int]),
            ),
        { over::<F>(h.get(active[i], active[j]), times::<F>(diag[i], diag[j])) };
    let hs: Matrix = Matrix::fill(n, n, entry);
    proof {
        hs.lemma_is_grid(
            active@.len(),
            active@.len(),
            |i: int, j: int|
                over::<F>(h@[active@[i] as int][active@[j] as int], times::<F>(diag@[i], diag@[j])),
        );
    }
    let slope = |k: usize| -> (v: Double)
        requires
            k < active@.len(),
        ensures
            v == over::<F>(g@[active@[k as int] as int], diag@[k as int]),
        { over::<F>(g[active[k]], diag[k]) };
    let gs: Vec<Double> = fill_vec(n, slope);
    assert(gs@ =~= scaled_slope::<F>(g@, active@, diag@));
    Preconditioned { diag, h: hs, g: gs }
}

/// `-g`.
pub open spec fn negated_of(g: Seq<Double>) -> Seq<Double> {
    Seq::new(g.len(), |k: int| g[k].neg_spec())
}

/// The right-hand side of the scaled system: `-g`.
pub fn negated(g: &Vec<Double>) -> (r: Vec<Double>)
    ensures
        r@ == negated_of(g@),
{
    let entry = |k: usize| -> (v: Double)
        requires
            k < g@.len(),
        ensures
            v == g@[k as int].neg_spec(),
        { g[k].neg() };
    let r: Vec<Double> = fill_vec(g.len(), entry);
    assert(r@ =~= negated_of(g@));
    r
}

/// `-g` over the larger of the floor and 1.
pub open spec fn unsolved_of<F: Arithmetic>(g: Seq<Double>, hess_floor: Double) -> Seq<Double> {
    Seq::new(g.len(), |k: int| over::<F>(g[k].neg_spec(), hess_floor.max_spec(one())))
}

/// The scaled step where the scaled system could not be solved: `-g` over the
/// larger of the floor and 1.
pub fn unsolved_step<F: Arithmetic>(g: &Vec<Double>, hess_floor: Double) -> (r: Vec<Double>)
    requires
        lawful::<F>(),
    ensures
        r@ == unsolved_of::<F>(g@, hess_floor),
{
    let entry = |k: usize| -> (v: Double)
        requires
            k < g@.len(),
        ensures
            v == over::<F>(g@[k as int].neg_spec(), hess_floor.max_spec(one())),
        { over::<F>(g[k].neg(), hess_floor.max(one())) };
    let r: Vec<Double> = fill_vec(g.len(), entry);
    assert(r@ =~= unsolved_of::<F>(g@, hess_floor));
    r
}

/// A solution of the scaled system as a step: each active axis gets its component
/// divided by its scale, every other axis gets zero.
pub open spec fn spread_of<F: Arithmetic>(
    dim: nat,
    active: Seq<usize>,
    diag: Seq<Double>,
    sub: Seq<Double>,
    r: Seq<Double>,
) -> bool {
    &&& r.len() == dim
    &&& forall|k: int|
        0 <= k < active.len() ==> r[#[trigger] active[k] as int] == over::<F>(sub[k], diag[k])
    &&& forall|i: int| 0 <= i < dim && !active.contains(i as usize) ==> #[trigger] r[i] == zero()
}

/// Spreads a solution of the scaled system over all axes.
pub fn spread<F: Arithmetic>(
    dim: usize,
    active: &Vec<usize>,
    diag: &Vec<Double>,
    sub: &Vec<Double>,
) -> (r: Vec<Double>)
    requires
        lawful::<F>(),
        sub@.len() == active@.len(),
        diag@.len() == active@.len(),
        names_axes(active@, dim as nat),
        forall|k: int, m: int| 0 <= k < m < active@.len() ==> active@[k] < active@[m],
    ensures
        spread_of::<F>(dim as nat, active@, diag@, sub@, r@),
{
    let mut out: Vec<Double> = Vec::new();
    for i in 0..dim
        invariant
            out@.len() == i,
            forall|m: int| 0 <= m < i ==> #[trigger] out@[m] == zero(),
    {
        out.push(zero());
    }
    for k in 0..active.len()
        invariant
            lawful::<F>(),
            out@.len() == dim,
            sub@.len() == active@.len(),
            diag@.len() == active@.len(),
            names_axes(active@, dim as nat),
            forall|k: int, m: int| 0 <= k < m < active@.len() ==> active@[k] < active@[m],
            forall|m: int|
                0 <= m < k ==> out@[#[trigger] active@[m] as int] == over::<F>(sub@[m], diag@[m]),
            forall|i: int|
                0 <= i < dim && !active@.contains(i as usize) ==> #[trigger] out@[i] == zero(),
    {
        let a: usize = active[k];
        let x: Double = over::<F>(sub[k], diag[k]);
        assert(active@.contains(a));
        out[a] = x;
    }
    out
}

/// `r` is the Newton direction on the active axes: the scaled curvature is made
/// positive definite, solved against the negative scaled gradient, and the
/// solution scaled back. Where it cannot be solved, the negative gradient takes
/// the solution's place.
pub open spec fn newton_direction_of<F: Arithmetic, D: DenseBackend>(
    g: Seq<Double>,
    h: Seq<Seq<Double>>,
    active: Seq<usize>,
    hess_floor: Double,
    r: Seq<Double>,
) -> bool {
    let diag = scales_of::<F>(h, active, hess_floor);
    let slope = scaled_slope::<F>(g, active, diag);
    exists|psd: Seq<Seq<Double>>, x: Option<Seq<Double>>|
        gmw_of::<F, D>(scaled_curvature::<F>(h, active, diag), hess_floor, psd)
            && #[trigger] solve_answered::<D>(psd, negated_of(slope), x) && spread_of::<F>(
            g.len(),
            active,
            diag,
            match x {
                Some(s) => s,
                None => unsolved_of::<F>(slope, hess_floor),
            },
            r,
        )
}

/// The Newton direction on the active axes.
pub fn newton_direction<F: Arithmetic, D: DenseBackend>(
    g: &Vec<Double>,
    h: &Matrix,
    active: &Vec<usize>,
    hess_floor: Double,
) -> (r: Vec<Double>)
    requires
        lawful::<F>(),
        h.square(g@.len()),
        names_axes(active@, g@.len()),
        forall|k: int, m: int| 0 <= k < m < active@.len() ==> active@[k] < active@[m],
    ensures
        r@.len() == g@.len(),
        newton_direction_of::<F, D>(g@, h@, active@, hess_floor, r@),
{
    let pre: Preconditioned = precondition::<F>(g, h, active, hess_floor);
    let psd: Matrix = make_psd_gmw::<F, D>(&pre.h, hess_floor);
    let rhs: Vec<Double> = negated(&pre.g);
    let solved: Option<Vec<Double>> = checked_solve::<D>(&psd, &rhs);
    let ghost answer: Option<Seq<Double>> = match &solved {
        Some(x) => Some(x@),
        None => None,
    };
    assert(solve_answered::<D>(psd@, negated_of(pre.g@), answer));
    let sub: Vec<Double> = match solved {
        Some(x) => x,
        None => unsolved_step::<F>(&pre.g, hess_floor),
    };
    spread::<F>(g.len(), active, &pre.diag, &sub)
}

/// A step without the components that lead out of the box from a bound.
pub open spec fn project_spec<F: Arithmetic>(step: Seq<Double>, theta: Seq<Double>, bnds: Option<&Bounds>) -> Seq<
    Double,
> {
    match bnds {
        Some(b) => Seq::new(
            step.len(),
            |i: int|
                if i < b@.len() && outward::<F>(step[i], theta[i], b@[i]) {
                    zero()
                } else {
                    step[i]
                },
        ),
        None => step,
    }
}

/// Zeroes the components of a step that lead out of the box from a bound they
/// sit on; every other component stays.
pub fn project_onto_box<F: Arithmetic>(step: &Vec<Double>, theta: &Vec<Double>, bnds: Option<&Bounds>) -> (r: Vec<Double>)
    requires
        lawful::<F>(),
        theta@.len() == step@.len(),
    ensures
        r@ == project_spec::<F>(step@, theta@, bnds),
{
    let mut out: Vec<Double> = Vec::new();
    for i in 0..step.len()
        invariant
            lawful::<F>(),
            theta@.len() == step@.len(),
            out@.len() == i,
            forall|k: int| 0 <= k < i ==> #[trigger] out@[k] == project_spec::<F>(step@, theta@, bnds)[k],
    {
        let drop_it: bool = match bnds {
            Some(b) => i < b.len() && pushes_out::<F>(step[i], theta[i], b[i]),
            None => false,
        };
        if drop_it {
            out.push(zero());
        } else {
            out.push(step[i]);
        }
    }
    assert(out@ =~= project_spec::<F>(step@, theta@, bnds));
    out
}

/// Projecting twice is projecting once: a projected step pushes nothing outward.
pub proof fn law_projection_idempotent<F: Arithmetic>(step: Seq<Double>, theta: Seq<Double>, b: &Bounds)
    ensures
        project_spec::<F>(project_spec::<F>(step, theta, Some(b)), theta, Some(b)) == project_spec::<F>(
            step,
            theta,
            Some(b),
        ),
        forall|i: int|
            0 <= i < step.len() && i < b@.len() ==> !outward::<F>(
                #[trigger] project_spec::<F>(step, theta, Some(b))[i],
                theta[i],
                b@[i],
            ),
{
    let once = project_spec::<F>(step, theta, Some(b));
    assert(project_spec::<F>(once, theta, Some(b)) =~= once);
}

/// A projection changes a component only by zeroing it, and only on an axis that
/// sits on a bound. Without bounds it changes nothing.
pub proof fn law_projection_keeps_the_rest<F: Arithmetic>(
    step: Seq<Double>,
    theta: Seq<Double>,
    b: &Bounds,
    i: int,
)
    requires
        0 <= i < step.len(),
    ensures
        project_spec::<F>(step, theta, None) == step,
        project_spec::<F>(step, theta, Some(b))[i] == step[i] || project_spec::<F>(
            step,
            theta,
            Some(b),
        )[i] == zero(),
        i >= b@.len() || (!on_upper::<F>(theta[i], b@[i].1) && !on_lower::<F>(theta[i], b@[i].0))
            ==> project_spec::<F>(step, theta, Some(b))[i] == step[i],
{
}

/// Component `s` exceeds its cap.
pub open spec fn cap_binds(s: Double, cap: Double) -> bool {
    cap.below(s.abs_spec()) && zero().below(s.abs_spec())
}

/// The tightest factor that the caps on the first `n` axes ask for, at most 1.
pub open spec fn shrink_upto<F: Arithmetic>(step: Seq<Double>, caps: Seq<Double>, n: nat) -> Double
    decreases n,
{
    if n == 0 {
        one()
    } else {
        let before = shrink_upto::<F>(step, caps, (n - 1) as nat);
        if cap_binds(step[n - 1], caps[n - 1]) {
            before.min_spec(over::<F>(caps[n - 1], step[n - 1].abs_spec()))
        } else {
            before
        }
    }
}

/// A step scaled as a whole so that it respects its caps.
pub open spec fn cap_spec<F: Arithmetic>(step: Seq<Double>, caps: Option<&Vec<Double>>, max_step: Double) -> Seq<
    Double,
> {
    match caps {
        Some(c) => scaled_of::<F>(step, shrink_upto::<F>(step, c@, step.len())),
        None => if max_step.below(inf_norm_spec(step)) {
            scaled_of::<F>(step, over::<F>(max_step, inf_norm_spec(step)))
        } else {
            step
        },
    }
}

/// Scales a step to respect its caps: by the tightest ratio `cap / |component|`
/// where there are per-axis caps, else to the cap on its largest absolute
/// component. One factor scales the whole step, so its direction stays.
pub fn cap_step<F: Arithmetic>(step: &Vec<Double>, axis_caps: Option<&Vec<Double>>, max_step: Double) -> (r: Vec<Double>)
    requires
        lawful::<F>(),
        axis_caps matches Some(c) ==> c@.len() >= step@.len(),
    ensures
        r@ == cap_spec::<F>(step@, axis_caps, max_step),
{
    match axis_caps {
        Some(caps) => {
            let mut shrink: Double = one();
            for i in 0..step.len()
                invariant
                    lawful::<F>(),
                    caps@.len() >= step@.len(),
                    shrink == shrink_upto::<F>(step@, caps@, i as nat),
            {
                let size: Double = step[i].abs();
                if caps[i].lt(size) && zero().lt(size) {
                    shrink = shrink.min(over::<F>(caps[i], size));
                }
            }
            scaled::<F>(step, shrink)
        },
        None => {
            let norm: Double = inf_norm(step);
            if max_step.lt(norm) {
                scaled::<F>(step, over::<F>(max_step, norm))
            } else {
                let r: Vec<Double> = step.clone();
                assert(r@ =~= step@);
                r
            }
        },
    }
}

/// The factor of a cap is at most 1, and at most every ratio that binds.
pub proof fn law_cap_only_shrinks<F: Arithmetic>(step: Seq<Double>, caps: Seq<Double>, n: nat)
    requires
        n <= step.len(),
        caps.len() == step.len(),
    ensures
        shrink_upto::<F>(step, caps, n).at_most(one()),
        forall|i: int|
            0 <= i < n && cap_binds(#[trigger] step[i], caps[i]) && !over::<F>(
                caps[i],
                step[i].abs_spec(),
            ).nan() ==> shrink_upto::<F>(step, caps, n).at_most(
                over::<F>(caps[i], step[i].abs_spec()),
            ),
    decreases n,
{
    if n > 0 {
        law_cap_only_shrinks::<F>(step, caps, (n - 1) as nat);
    }
}

/// The factor by which a step is scaled.
pub open spec fn cap_factor<F: Arithmetic>(step: Seq<Double>, caps: Option<&Vec<Double>>, max_step: Double) -> Double {
    match caps {
        Some(c) => shrink_upto::<F>(step, c@, step.len()),
        None => if max_step.below(inf_norm_spec(step)) {
            over::<F>(max_step, inf_norm_spec(step))
        } else {
            one()
        },
    }
}

/// The cap on axis `i`.
pub open spec fn cap_of(caps: Option<&Vec<Double>>, max_step: Double, i: int) -> Double {
    match caps {
        Some(c) => c@[i],
        None => max_step,
    }
}

proof fn lemma_shrink<F: Arithmetic>(step: Seq<Double>, caps: Seq<Double>, n: nat)
    requires
        rounded::<F>(),
        n <= step.len() <= caps.len(),
        forall|i: int| 0 <= i < step.len() ==> (#[trigger] step[i]).finite(),
        forall|i: int| 0 <= i < step.len() ==> zero().below(#[trigger] caps[i]) && caps[i].finite(),
    ensures
        zero().at_most(shrink_upto::<F>(step, caps, n)),
        shrink_upto::<F>(step, caps, n).at_most(one()),
        forall|i: int|
            0 <= i < n && cap_binds(#[trigger] step[i], caps[i]) ==> shrink_upto::<F>(
                step,
                caps,
                n,
            ).at_most(over::<F>(caps[i], step[i].abs_spec())),
        shrink_upto::<F>(step, caps, n) == one() || exists|i: int|
            0 <= i < n && cap_binds(#[trigger] step[i], caps[i]) && shrink_upto::<F>(step, caps, n)
                == over::<F>(caps[i], step[i].abs_spec()),
    decreases n,
{
    if n > 0 {
        lemma_shrink::<F>(step, caps, (n - 1) as nat);
        let s = step[n - 1];
        if cap_binds(s, caps[n - 1]) {
            assert(caps[n - 1].at_most(s.abs_spec()));
            assert(over::<F>(caps[n - 1], s.abs_spec()).at_most(one()));
        }
    }
}

/// A step of finite components under positive caps is scaled by one factor between
/// 0 and 1. It is 1, or the one that brings some component to its cap; it is above
/// 0 unless such a quotient vanishes. No component exceeds its cap by more than the
/// rounding of `|s| (cap / |s|)`.
pub proof fn law_every_cap_holds<F: Arithmetic>(
    step: Seq<Double>,
    caps: Option<&Vec<Double>>,
    max_step: Double,
)
    requires
        rounded::<F>(),
        caps matches Some(c) ==> c@.len() >= step.len(),
        forall|i: int| 0 <= i < step.len() ==> (#[trigger] step[i]).finite(),
        forall|i: int|
            0 <= i < step.len() ==> zero().below(#[trigger] cap_of(caps, max_step, i)) && cap_of(
                caps,
                max_step,
                i,
            ).finite(),
        zero().below(max_step) && max_step.finite(),
    ensures
        ({
            let c = cap_factor::<F>(step, caps, max_step);
            let out = cap_spec::<F>(step, caps, max_step);
            &&& zero().at_most(c) && c.at_most(one())
            &&& out == step || out == scaled_of::<F>(step, c)
            &&& c == one() || exists|i: int|
                0 <= i < step.len() && cap_binds(#[trigger] step[i], cap_of(caps, max_step, i)) && c
                    == over::<F>(cap_of(caps, max_step, i), step[i].abs_spec())
            &&& (forall|i: int|
                0 <= i < step.len() && cap_binds(#[trigger] step[i], cap_of(caps, max_step, i))
                    ==> zero().below(over::<F>(cap_of(caps, max_step, i), step[i].abs_spec())))
                ==> zero().below(c)
            &&& forall|i: int|
                0 <= i < step.len() ==> (#[trigger] out[i]).abs_spec().at_most(
                    cap_of(caps, max_step, i),
                ) || exists|k: int|
                    0 <= k < step.len() && out[i].abs_spec().at_most(
                        times::<F>(
                            step[k].abs_spec(),
                            #[trigger] over::<F>(cap_of(caps, max_step, i), step[k].abs_spec()),
                        ),
                    )
        }),
{
    let c = cap_factor::<F>(step, caps, max_step);
    let out = cap_spec::<F>(step, caps, max_step);
    match caps {
        Some(v) => {
            assert forall|i: int| 0 <= i < step.len() implies zero().below(#[trigger] v@[i])
                && v@[i].finite() by {
                assert(zero().below(cap_of(caps, max_step, i)));
            }
            lemma_shrink::<F>(step, v@, step.len());
            assert forall|i: int| 0 <= i < step.len() implies (#[trigger] out[i]).abs_spec().at_most(
                cap_of(caps, max_step, i),
            ) || exists|k: int|
                0 <= k < step.len() && out[i].abs_spec().at_most(
                    times::<F>(
                        step[k].abs_spec(),
                        #[trigger] over::<F>(cap_of(caps, max_step, i), step[k].abs_spec()),
                    ),
                ) by {
                let size = step[i].abs_spec();
                assert(out[i] == times::<F>(step[i], c));
                assert(out[i].abs_spec().at_most(times::<F>(size, c)));
                if cap_binds(step[i], v@[i]) {
                    let q = over::<F>(v@[i], size);
                    assert(c.at_most(q));
                    assert(v@[i].at_most(size));
                    assert(q.at_most(one()));
                    assert(times::<F>(c, size).at_most(times::<F>(q, size)));
                    assert(times::<F>(size, c) == times::<F>(c, size));
                    assert(times::<F>(size, q) == times::<F>(q, size));
                } else {
                    assert(times::<F>(size, c).at_most(size));
                }
            }
        },
        None => {
            let norm = inf_norm_spec(step);
            law_inf_norm_bounds(step, step.len());
            law_inf_norm_attained(step, step.len());
            if max_step.below(norm) {
                let k = choose|k: int|
                    0 <= k < step.len() && norm == (#[trigger] step[k]).abs_spec();
                assert(cap_binds(step[k], cap_of(caps, max_step, k)));
                assert(max_step.at_most(norm));
                assert(c.at_most(one()));
                assert forall|i: int| 0 <= i < step.len() implies (#[trigger] out[i]).abs_spec().at_most(
                    cap_of(caps, max_step, i),
                ) || exists|k: int|
                    0 <= k < step.len() && out[i].abs_spec().at_most(
                        times::<F>(
                            step[k].abs_spec(),
                            #[trigger] over::<F>(cap_of(caps, max_step, i), step[k].abs_spec()),
                        ),
                    ) by {
                    let size = step[i].abs_spec();
                    assert(out[i] == times::<F>(step[i], c));
                    assert(out[i].abs_spec().at_most(times::<F>(size, c)));
                    assert(size.at_most(norm));
                    assert(times::<F>(size, c).at_most(times::<F>(norm, c)));
                    assert(c == over::<F>(cap_of(caps, max_step, i), step[k].abs_spec()));
                }
            }
        },
    }
}

/// The factor that the caps on the first `n` axes ask for is the one over those
/// axes without axis `i`, where `i` asks for nothing.
proof fn lemma_shrink_without<F: Arithmetic>(step: Seq<Double>, caps: Seq<Double>, i: int, n: nat)
    requires
        0 <= i < n <= step.len(),
        step.len() <= caps.len(),
        !cap_binds(step[i], caps[i]),
    ensures
        shrink_upto::<F>(step, caps, n) == shrink_upto::<F>(
            step.remove(i),
            caps.remove(i),
            (n - 1) as nat,
        ),
    decreases n,
{
    if i == n - 1 {
        lemma_shrink_congruent::<F>(step, caps, step.remove(i), caps.remove(i), (n - 1) as nat);
    } else {
        lemma_shrink_without::<F>(step, caps, i, (n - 1) as nat);
    }
}

/// The factor depends only on the axes it looks at.
proof fn lemma_shrink_congruent<F: Arithmetic>(
    step: Seq<Double>,
    caps: Seq<Double>,
    other: Seq<Double>,
    limits: Seq<Double>,
    n: nat,
)
    requires
        forall|k: int| 0 <= k < n ==> #[trigger] step[k] == other[k],
        forall|k: int| 0 <= k < n ==> #[trigger] caps[k] == limits[k],
    ensures
        shrink_upto::<F>(step, caps, n) == shrink_upto::<F>(other, limits, n),
    decreases n,
{
    if n > 0 {
        lemma_shrink_congruent::<F>(step, caps, other, limits, (n - 1) as nat);
    }
}

/// The largest size among the first `n` axes is the one over those axes without
/// an axis that stands still.
proof fn lemma_norm_without(step: Seq<Double>, i: int, n: nat)
    requires
        0 <= i < n <= step.len(),
        step[i] == zero(),
    ensures
        inf_norm_upto(step, n) == inf_norm_upto(step.remove(i), (n - 1) as nat),
    decreases n,
{
    if i == n - 1 {
        lemma_norm_congruent(step, step.remove(i), (n - 1) as nat);
        law_inf_norm_bounds(step, (n - 1) as nat);
    } else {
        lemma_norm_without(step, i, (n - 1) as nat);
    }
}

/// The largest size depends only on the axes it looks at.
proof fn lemma_norm_congruent(step: Seq<Double>, other: Seq<Double>, n: nat)
    requires
        forall|k: int| 0 <= k < n ==> #[trigger] step[k] == other[k],
    ensures
        inf_norm_upto(step, n) == inf_norm_upto(other, n),
    decreases n,
{
    if n > 0 {
        lemma_norm_congruent(step, other, (n - 1) as nat);
    }
}

/// An axis pinned at its bound and asking to leave the box does not throttle the
/// others: the factor of the projected step is the factor over the other axes
/// alone, both where each axis has a cap of its own and where one cap holds for
/// the largest.
pub proof fn law_pinned_axis_does_not_throttle<F: Arithmetic>(
    step: Seq<Double>,
    theta: Seq<Double>,
    b: &Bounds,
    caps: &Vec<Double>,
    max_step: Double,
    i: int,
)
    requires
        0 <= i < step.len(),
        i < b@.len(),
        step.len() <= caps@.len(),
        outward::<F>(step[i], theta[i], b@[i]),
    ensures
        ({
            let p = project_spec::<F>(step, theta, Some(b));
            let others = p.remove(i);
            &&& !cap_binds(p[i], caps@[i])
            &&& cap_factor::<F>(p, Some(caps), max_step) == shrink_upto::<F>(
                others,
                caps@.remove(i),
                others.len(),
            )
            &&& cap_factor::<F>(p, None, max_step) == cap_factor::<F>(others, None, max_step)
        }),
{
    let p = project_spec::<F>(step, theta, Some(b));
    lemma_shrink_without::<F>(p, caps@, i, p.len());
    lemma_norm_without(p, i, p.len());
}

/// The displacement that takes a concave axis to the bound its gradient points
/// at. `None` for an axis of no negative curvature, of no gradient, already on
/// the bound, or within four capped steps of it.
pub open spec fn jump_of<F: Arithmetic>(
    t: Double,
    g: Double,
    curvature: Double,
    capped: Double,
    b: (Double, Double),
    dim_tol: Double,
) -> Option<Double> {
    if dim_tol.neg_spec().at_most(curvature) {
        None
    } else {
        let target = if g.below(zero()) {
            Some(b.1)
        } else if zero().below(g) {
            Some(b.0)
        } else {
            None
        };
        match target {
            Some(x) => {
                let d = minus::<F>(x, t);
                if near_eps::<F>(lit(E_M12), t).below(d.abs_spec()) && times::<F>(
                    lit(FOUR),
                    capped.abs_spec(),
                ).below(d.abs_spec()) {
                    Some(d)
                } else {
                    None
                }
            },
            None => None,
        }
    }
}

/// [`jump_of`] for axis `i` of a point; `None` for an axis without bounds.
pub open spec fn jump_at<F: Arithmetic>(
    theta: Seq<Double>,
    g: Seq<Double>,
    h: Seq<Seq<Double>>,
    capped: Seq<Double>,
    b: Seq<(Double, Double)>,
    dim_tol: Double,
    i: int,
) -> Option<Double> {
    if i < b.len() {
        jump_of::<F>(theta[i], g[i], h[i][i], capped[i], b[i], dim_tol)
    } else {
        None
    }
}

/// A step with its concave axes taken to their bounds.
pub open spec fn jump_step<F: Arithmetic>(
    theta: Seq<Double>,
    g: Seq<Double>,
    h: Seq<Seq<Double>>,
    capped: Seq<Double>,
    b: Seq<(Double, Double)>,
    dim_tol: Double,
) -> Seq<Double> {
    Seq::new(
        capped.len(),
        |i: int|
            match jump_at::<F>(theta, g, h, capped, b, dim_tol, i) {
                Some(d) => d,
                None => capped[i],
            },
    )
}

/// Decides the jump of one axis.
fn axis_jump<F: Arithmetic>(
    t: Double,
    g: Double,
    curvature: Double,
    capped: Double,
    b: (Double, Double),
    dim_tol: Double,
) -> (r: Option<Double>)
    requires
        lawful::<F>(),
    ensures
        r == jump_of::<F>(t, g, curvature, capped, b, dim_tol),
{
    if dim_tol.neg().le(curvature) {
        return None;
    }
    let target: Double = if g.lt(zero()) {
        b.1
    } else if zero().lt(g) {
        b.0
    } else {
        return None;
    };
    let d: Double = minus::<F>(target, t);
    let eps: Double = times::<F>(lit(E_M12), t.abs().max(one()));
    let reach: Double = times::<F>(lit(FOUR), capped.abs());
    if eps.lt(d.abs()) && reach.lt(d.abs()) {
        Some(d)
    } else {
        None
    }
}

/// The candidate step that takes every concave axis straight to the bound its
/// gradient points at and keeps the capped component on all others. An axis that
/// the capped step brings there in a few iterations does not jump. `None` where
/// no axis jumps, or where there is no box.
pub fn concave_bound_jump<F: Arithmetic>(
    theta: &Vec<Double>,
    g: &Vec<Double>,
    h: &Matrix,
    capped: &Vec<Double>,
    bnds: Option<&Bounds>,
    dim_tol: Double,
) -> (r: Option<Vec<Double>>)
    requires
        lawful::<F>(),
        h.square(g@.len()),
        theta@.len() == g@.len(),
        capped@.len() == g@.len(),
    ensures
        match bnds {
            Some(b) => {
                let some_axis = exists|i: int|
                    0 <= i < g@.len() && jump_at::<F>(theta@, g@, h@, capped@, b@, dim_tol, i) is Some;
                match r {
                    Some(j) => some_axis && j@ == jump_step::<F>(theta@, g@, h@, capped@, b@, dim_tol),
                    None => !some_axis,
                }
            },
            None => r is None,
        },
{
    match bnds {
        Some(b) => {
            let mut out: Vec<Double> = Vec::new();
            let mut jumped: bool = false;
            for i in 0..capped.len()
                invariant
                    lawful::<F>(),
                    h.square(g@.len()),
                    theta@.len() == g@.len(),
                    capped@.len() == g@.len(),
                    out@.len() == i,
                    forall|k: int|
                        0 <= k < i ==> #[trigger] out@[k] == jump_step::<F>(
                            theta@,
                            g@,
                            h@,
                            capped@,
                            b@,
                            dim_tol,
                        )[k],
                    jumped == exists|k: int|
                        0 <= k < i && jump_at::<F>(theta@, g@, h@, capped@, b@, dim_tol, k) is Some,
            {
                let here: Option<Double> = if i < b.len() {
                    axis_jump::<F>(theta[i], g[i], h.get(i, i), capped[i], b[i], dim_tol)
                } else {
                    None
                };
                assert(here == jump_at::<F>(theta@, g@, h@, capped@, b@, dim_tol, i as int));
                match here {
                    Some(d) => {
                        out.push(d);
                        jumped = true;
                    },
                    None => {
                        out.push(capped[i]);
                    },
                }
            }
            if jumped {
                assert(out@ =~= jump_step::<F>(theta@, g@, h@, capped@, b@, dim_tol));
                Some(out)
            } else {
                None
            }
        },
        None => None,
    }
}

/// An axis of no negative curvature never jumps, an axis of no gradient never
/// jumps, and a jumping axis moves farther than four capped steps.
pub proof fn law_jump_axes<F: Arithmetic>(
    t: Double,
    g: Double,
    curvature: Double,
    capped: Double,
    b: (Double, Double),
    dim_tol: Double,
)
    ensures
        dim_tol.neg_spec().at_most(curvature) ==> jump_of::<F>(t, g, curvature, capped, b, dim_tol) is None,
        !g.below(zero()) && !zero().below(g) ==> jump_of::<F>(t, g, curvature, capped, b, dim_tol) is None,
        jump_of::<F>(t, g, curvature, capped, b, dim_tol) matches Some(d) ==> times::<F>(
            lit(FOUR),
            capped.abs_spec(),
        ).below(d.abs_spec()),
{
}

/// `-g / max|g|`, or zeros where no component is positive in size.
pub open spec fn descent_spec<F: Arithmetic>(g: Seq<Double>) -> Seq<Double> {
    if zero().below(inf_norm_spec(g)) {
        Seq::new(g.len(), |i: int| over::<F>(g[i].neg_spec(), inf_norm_spec(g)))
    } else {
        Seq::new(g.len(), |i: int| zero())
    }
}

/// The steepest-descent direction `-g / max|g|`.
pub fn steepest_descent_dir<F: Arithmetic>(g: &Vec<Double>) -> (r: Vec<Double>)
    requires
        lawful::<F>(),
    ensures
        r@ == descent_spec::<F>(g@),
{
    let gmax: Double = inf_norm(g);
    if zero().lt(gmax) {
        let entry = |i: usize| -> (v: Double)
            requires
                i < g@.len(),
            ensures
                v == over::<F>(g@[i as int].neg_spec(), gmax),
            { over::<F>(g[i].neg(), gmax) };
        let r: Vec<Double> = fill_vec(g.len(), entry);
        assert(r@ =~= descent_spec::<F>(g@));
        r
    } else {
        let entry = |i: usize| -> (v: Double)
            ensures
                v == zero(),
            { zero() };
        let r: Vec<Double> = fill_vec(g.len(), entry);
        assert(r@ =~= descent_spec::<F>(g@));
        r
    }
}

/// The score change that the quadratic model predicts: `g's + s'Hs / 2`.
pub open spec fn predicted_change<F: Arithmetic>(g: Seq<Double>, h: Seq<Seq<Double>>, s: Seq<Double>) -> Double {
    plus::<F>(
        dot_of::<F>(g, s),
        times::<F>(half(), dot_of::<F>(s, mat_vec_of::<F>(h, s))),
    )
}

/// How far the realised change is from the predicted one, relative to the larger.
pub open spec fn model_error_of<F: Arithmetic>(
    g: Seq<Double>,
    h: Seq<Seq<Double>>,
    s: Seq<Double>,
    actual: Double,
    score_scale: Double,
    conv_tol: Double,
) -> Double {
    let pred = predicted_change::<F>(g, h, s);
    let denom = plus::<F>(
        pred.abs_spec().max_spec(actual.abs_spec()),
        times::<F>(score_scale, conv_tol),
    );
    if denom.at_most(zero()) {
        zero()
    } else {
        over::<F>(minus::<F>(pred, actual).abs_spec(), denom)
    }
}

/// The model error lies between 0 and 2, and it is 0 where the realised change is
/// the predicted one: on a quadratic it vanishes for every step.
pub proof fn law_model_error_range<F: Arithmetic>(
    g: Seq<Double>,
    h: Seq<Seq<Double>>,
    s: Seq<Double>,
    actual: Double,
    score_scale: Double,
    conv_tol: Double,
)
    requires
        rounded::<F>(),
        zero().below(score_scale) && score_scale.finite(),
        zero().below(conv_tol) && conv_tol.finite(),
        actual.finite(),
        predicted_change::<F>(g, h, s).finite(),
        minus::<F>(predicted_change::<F>(g, h, s), actual).finite(),
        times::<F>(score_scale, conv_tol).finite(),
        plus::<F>(
            predicted_change::<F>(g, h, s).abs_spec().max_spec(actual.abs_spec()),
            times::<F>(score_scale, conv_tol),
        ).finite(),
    ensures
        zero().at_most(model_error_of::<F>(g, h, s, actual, score_scale, conv_tol)),
        model_error_of::<F>(g, h, s, actual, score_scale, conv_tol).at_most(two()),
        actual == predicted_change::<F>(g, h, s) ==> model_error_of::<F>(
            g,
            h,
            s,
            actual,
            score_scale,
            conv_tol,
        ) == zero(),
{
    let pred = predicted_change::<F>(g, h, s);
    let m = pred.abs_spec().max_spec(actual.abs_spec());
    let floor = times::<F>(score_scale, conv_tol);
    assert(zero().at_most(floor));
    let denom = plus::<F>(m, floor);
    assert(m.at_most(denom));
    let x = minus::<F>(pred, actual).abs_spec();
    assert(x.at_most(times::<F>(two(), m)));
    if actual == pred {
        assert(minus::<F>(pred, pred) == zero());
        assert(x == zero());
    }
}

/// How far the realised score change of a step is from what the quadratic model
/// predicted, relative to the larger of the two.
pub fn quadratic_model_error<F: Arithmetic>(
    g: &Vec<Double>,
    h: &Matrix,
    step: &Vec<Double>,
    actual_change: Double,
    score_scale: Double,
    conv_tol: Double,
) -> (r: Double)
    requires
        lawful::<F>(),
        h.square(g@.len()),
        step@.len() == g@.len(),
    ensures
        r == model_error_of::<F>(g@, h@, step@, actual_change, score_scale, conv_tol),
{
    let lin: Double = dot::<F>(g, step);
    let hs: Vec<Double> = mat_vec::<F>(h, step);
    let quad: Double = times::<F>(half(), dot::<F>(step, &hs));
    let pred: Double = plus::<F>(lin, quad);
    let denom: Double = plus::<F>(
        pred.abs().max(actual_change.abs()),
        times::<F>(score_scale, conv_tol),
    );
    if denom.le(zero()) {
        return zero();
    }
    over::<F>(minus::<F>(pred, actual_change).abs(), denom)
}

/// Each listed interval has its ends in order, as far as the point reaches.
pub open spec fn bounds_ordered(bnds: Option<&Bounds>, n: nat) -> bool {
    match bnds {
        Some(b) => pairs_ordered(b@, n),
        None => true,
    }
}

/// The bounds of the first `n` axes are in order.
pub open spec fn pairs_ordered(b: Seq<(Double, Double)>, n: nat) -> bool {
    forall|i: int| 0 <= i < b.len() && i < n ==> #[trigger] pair_ordered(b, i)
}

/// The lower bound of axis `i` is at most its upper bound.
pub open spec fn pair_ordered(b: Seq<(Double, Double)>, i: int) -> bool {
    b[i].0.at_most(b[i].1)
}

/// A point moved into a box.
pub open spec fn clamp_point(t: Seq<Double>, bnds: Option<&Bounds>) -> Seq<Double> {
    match bnds {
        Some(b) => Seq::new(
            t.len(),
            |i: int|
                if i < b@.len() {
                    t[i].clamp_spec(b@[i].0, b@[i].1)
                } else {
                    t[i]
                },
        ),
        None => t,
    }
}

/// Moves a trial point into the box, axis by axis; axes without bounds stay.
pub fn clamp_to_box(t: Vec<Double>, bnds: Option<&Bounds>) -> (r: Vec<Double>)
    requires
        bounds_ordered(bnds, t@.len()),
    ensures
        r@ == clamp_point(t@, bnds),
{
    match bnds {
        Some(b) => {
            let mut out: Vec<Double> = Vec::new();
            for i in 0..t.len()
                invariant
                    pairs_ordered(b@, t@.len()),
                    out@.len() == i,
                    forall|k: int| 0 <= k < i ==> #[trigger] out@[k] == clamp_point(t@, Some(b))[k],
            {
                if i < b.len() {
                    let pair: (Double, Double) = b[i];
                    assert(pair_ordered(b@, i as int));
                    out.push(t[i].clamp(pair.0, pair.1));
                } else {
                    out.push(t[i]);
                }
            }
            assert(out@ =~= clamp_point(t@, Some(b)));
            out
        },
        None => t,
    }
}

/// A clamped point lies in the box, and clamping twice is clamping once.
pub proof fn law_clamp_lands_in_the_box(t: Seq<Double>, b: &Bounds)
    requires
        bounds_ordered(Some(b), t.len()),
    ensures
        clamp_point(clamp_point(t, Some(b)), Some(b)) == clamp_point(t, Some(b)),
        forall|i: int|
            0 <= i < t.len() && i < b@.len() && !t[i].nan() ==> b@[i].0.at_most(
                #[trigger] clamp_point(t, Some(b))[i],
            ) && clamp_point(t, Some(b))[i].at_most(b@[i].1),
{
    let once = clamp_point(t, Some(b));
    assert forall|i: int| 0 <= i < t.len() && i < b@.len() implies (#[trigger] b@[i]).0.at_most(b@[i].1) by {
        assert(pair_ordered(b@, i));
    }
    assert(clamp_point(once, Some(b)) =~= once);
}

/// The eigenvalues and eigenvectors of a symmetric matrix.
pub struct Spectrum {
    /// Eigenvalues.
    pub eigs: Vec<Double>,
    /// Eigenvectors, in columns.
    pub vecs: Matrix,
}

impl Spectrum {
    /// One eigenvector for each of `n` eigenvalues.
    pub open spec fn fits(&self, n: nat) -> bool {
        self.eigs@.len() == n && self.vecs.square(n)
    }
}

/// A borrowed decomposition as a value.
pub open spec fn owned_spectrum(s: Option<&Spectrum>) -> Option<Spectrum> {
    match s {
        Some(sp) => Some(*sp),
        None => None,
    }
}

/// What is known of a point from which no trial step improved the score.
pub struct StandingPoint<'a> {
    /// Parameters.
    pub theta: &'a Vec<Double>,
    /// Gradient.
    pub g: &'a Vec<Double>,
    /// Newton step before projection.
    pub raw_step: &'a Vec<Double>,
    /// Box.
    pub bnds: Option<&'a Bounds>,
    /// Decomposition of the Hessian, unless it failed.
    pub spectrum: Option<&'a Spectrum>,
    /// Score.
    pub v: Double,
    /// Largest absolute gradient component.
    pub grad_norm: Double,
}

/// The lengths agree.
pub open spec fn standing_fits(p: &StandingPoint) -> bool {
    &&& p.theta@.len() == p.g@.len()
    &&& p.raw_step@.len() == p.g@.len()
    &&& (p.spectrum matches Some(s) ==> s.fits(p.g@.len()))
}

/// `rel (|v| + 1)`: a bar relative to the score.
pub open spec fn score_bar<F: Arithmetic>(rel: Double, v: Double) -> Double {
    times::<F>(rel, plus::<F>(v.abs_spec(), one()))
}

/// The raw step moves axis `i` by more than noise.
pub open spec fn axis_moves<F: Arithmetic>(raw: Seq<Double>, theta: Seq<Double>, i: int) -> bool {
    near_eps::<F>(lit(E_M12), theta[i]).below(raw[i].abs_spec())
}

/// Some bounded axis moves, and every one that moves leads out of the box.
pub open spec fn kkt_spec<F: Arithmetic>(theta: Seq<Double>, raw: Seq<Double>, bnds: Option<&Bounds>) -> bool {
    match bnds {
        Some(b) => {
            &&& exists|i: int|
                0 <= i < raw.len() && i < b@.len() && #[trigger] axis_moves::<F>(raw, theta, i)
            &&& forall|i: int|
                0 <= i < raw.len() && i < b@.len() && #[trigger] axis_moves::<F>(raw, theta, i)
                    ==> outward::<F>(raw[i], theta[i], b@[i])
        },
        None => false,
    }
}

/// The bounds of axis `i`; infinite where the box lists none.
pub open spec fn bounds_of(b: Seq<(Double, Double)>, i: int) -> (Double, Double) {
    if i < b.len() {
        b[i]
    } else {
        (lit(0xfff0_0000_0000_0000), lit(0x7ff0_0000_0000_0000))
    }
}

/// Axis `i` is close to its lower bound.
pub open spec fn near_lower<F: Arithmetic>(theta: Seq<Double>, b: Seq<(Double, Double)>, i: int) -> bool {
    within::<F>(minus::<F>(theta[i], bounds_of(b, i).0), lit(E_M9), theta[i])
}

/// Axis `i` is close to its upper bound.
pub open spec fn near_upper<F: Arithmetic>(theta: Seq<Double>, b: Seq<(Double, Double)>, i: int) -> bool {
    within::<F>(minus::<F>(bounds_of(b, i).1, theta[i]), lit(E_M9), theta[i])
}

/// Axis `i` is close to one of its bounds.
pub open spec fn near_bound<F: Arithmetic>(theta: Seq<Double>, b: Seq<(Double, Double)>, i: int) -> bool {
    near_lower::<F>(theta, b, i) || near_upper::<F>(theta, b, i)
}

/// A bound blocks axis `i`: descending along it would leave the box.
pub open spec fn blocked<F: Arithmetic>(theta: Seq<Double>, g: Seq<Double>, b: Seq<(Double, Double)>, i: int) -> bool {
    (near_upper::<F>(theta, b, i) && g[i].below(zero())) || (near_lower::<F>(theta, b, i) && zero().below(
        g[i],
    ))
}

/// Largest absolute gradient among the first `n` axes that no bound blocks.
pub open spec fn free_grad_upto<F: Arithmetic>(
    theta: Seq<Double>,
    g: Seq<Double>,
    b: Seq<(Double, Double)>,
    n: nat,
) -> Double
    decreases n,
{
    if n == 0 {
        zero()
    } else {
        let before = free_grad_upto::<F>(theta, g, b, (n - 1) as nat);
        if blocked::<F>(theta, g, b, n - 1) {
            before
        } else {
            before.max_spec(g[n - 1].abs_spec())
        }
    }
}

/// Some axis is close to a bound, and the gradient left free by the bounds is
/// small.
pub open spec fn projected_spec<F: Arithmetic>(
    theta: Seq<Double>,
    g: Seq<Double>,
    bnds: Option<&Bounds>,
    v: Double,
) -> bool {
    match bnds {
        Some(b) => {
            &&& exists|i: int| 0 <= i < g.len() && #[trigger] near_bound::<F>(theta, b@, i)
            &&& free_grad_upto::<F>(theta, g, b@, g.len()).below(score_bar::<F>(lit(TENTH), v))
        },
        None => false,
    }
}

/// The absolute eigenvalue up to which a direction counts as flat: the largest
/// one times `2^-52` to the power of 0.7.
pub open spec fn null_thresh_of<F: Arithmetic>(eigs: Seq<Double>) -> Double {
    times::<F>(inf_norm_spec(eigs), power::<F>(lit(EPSILON), lit(SEVEN_TENTHS)))
}

/// Direction `k` is flat.
pub open spec fn flat_direction<F: Arithmetic>(eigs: Seq<Double>, k: int) -> bool {
    eigs[k].abs_spec().at_most(null_thresh_of::<F>(eigs))
}

/// The gradient along eigenvector `k`.
pub open spec fn grad_along<F: Arithmetic>(vecs: Seq<Seq<Double>>, g: Seq<Double>, k: int) -> Double {
    total::<F>(|i: int| times::<F>(vecs[i][k], g[i]), g.len())
}

/// Largest absolute gradient along the first `n` directions that are not flat.
pub open spec fn working_grad_upto<F: Arithmetic>(
    eigs: Seq<Double>,
    vecs: Seq<Seq<Double>>,
    g: Seq<Double>,
    n: nat,
) -> Double
    decreases n,
{
    if n == 0 {
        zero()
    } else {
        let before = working_grad_upto::<F>(eigs, vecs, g, (n - 1) as nat);
        if flat_direction::<F>(eigs, n - 1) {
            before
        } else {
            before.max_spec(grad_along::<F>(vecs, g, n - 1).abs_spec())
        }
    }
}

/// Some direction is flat, and the gradient along the others is small.
pub open spec fn rank_deficient_spec<F: Arithmetic>(g: Seq<Double>, spectrum: Option<&Spectrum>, v: Double) -> bool {
    match spectrum {
        Some(s) => {
            &&& exists|k: int| 0 <= k < g.len() && #[trigger] flat_direction::<F>(s.eigs@, k)
            &&& working_grad_upto::<F>(s.eigs@, s.vecs@, g, g.len()).below(
                score_bar::<F>(lit(TENTH), v),
            )
        },
        None => false,
    }
}

/// A point without an improving step counts as an optimum: its gradient is small,
/// the box blocks everything the step wanted, the gradient the box leaves free is
/// small, or the gradient lies along flat directions.
pub open spec fn failure_is_optimum<F: Arithmetic>(p: &StandingPoint) -> bool {
    ||| p.grad_norm.below(score_bar::<F>(lit(E_M3), p.v))
    ||| kkt_spec::<F>(p.theta@, p.raw_step@, p.bnds)
    ||| projected_spec::<F>(p.theta@, p.g@, p.bnds, p.v)
    ||| rank_deficient_spec::<F>(p.g@, p.spectrum, p.v)
}

/// Whether the gradient is below `1e-3 (|v| + 1)`.
pub fn relaxed_grad_converged<F: Arithmetic>(grad_norm: Double, v: Double) -> (b: bool)
    requires
        lawful::<F>(),
    ensures
        b == grad_norm.below(score_bar::<F>(lit(E_M3), v)),
{
    grad_norm.lt(times::<F>(lit(E_M3), plus::<F>(v.abs(), one())))
}

/// Whether the unconstrained step leads out of the box on every bounded axis it
/// moves, and moves some.
pub fn kkt_at_boundary<F: Arithmetic>(theta: &Vec<Double>, raw_step: &Vec<Double>, bnds: Option<&Bounds>) -> (r: bool)
    requires
        lawful::<F>(),
        theta@.len() == raw_step@.len(),
    ensures
        r == kkt_spec::<F>(theta@, raw_step@, bnds),
{
    match bnds {
        Some(b) => {
            let mut any_movement: bool = false;
            let mut all_blocked: bool = true;
            for i in 0..raw_step.len()
                invariant
                    lawful::<F>(),
                    theta@.len() == raw_step@.len(),
                    any_movement == exists|k: int|
                        0 <= k < i && k < b@.len() && #[trigger] axis_moves::<F>(raw_step@, theta@, k),
                    all_blocked == forall|k: int|
                        0 <= k < i && k < b@.len() && #[trigger] axis_moves::<F>(raw_step@, theta@, k)
                            ==> outward::<F>(raw_step@[k], theta@[k], b@[k]),
            {
                let s: Double = raw_step[i];
                let t: Double = theta[i];
                if i < b.len() && times::<F>(lit(E_M12), t.abs().max(one())).lt(s.abs()) {
                    assert(axis_moves::<F>(raw_step@, theta@, i as int));
                    any_movement = true;
                    if !pushes_out::<F>(s, t, b[i]) {
                        all_blocked = false;
                    }
                }
            }
            any_movement && all_blocked
        },
        None => false,
    }
}

/// Whether some axis is close to a bound and the gradient left free by the bounds
/// is below `0.1 (|v| + 1)`.
pub fn projected_grad_small<F: Arithmetic>(
    theta: &Vec<Double>,
    g: &Vec<Double>,
    bnds: Option<&Bounds>,
    v: Double,
) -> (r: bool)
    requires
        lawful::<F>(),
        theta@.len() == g@.len(),
    ensures
        r == projected_spec::<F>(theta@, g@, bnds, v),
{
    match bnds {
        Some(b) => {
            let mut any_at_bound: bool = false;
            let mut proj: Double = zero();
            for i in 0..g.len()
                invariant
                    lawful::<F>(),
                    theta@.len() == g@.len(),
                    any_at_bound == exists|k: int| 0 <= k < i && #[trigger] near_bound::<F>(theta@, b@, k),
                    proj == free_grad_upto::<F>(theta@, g@, b@, i as nat),
            {
                let pair: (Double, Double) = if i < b.len() {
                    b[i]
                } else {
                    (lit(0xfff0_0000_0000_0000), lit(0x7ff0_0000_0000_0000))
                };
                let t: Double = theta[i];
                let gi: Double = g[i];
                let at_lo: bool = is_within::<F>(minus::<F>(t, pair.0), lit(E_M9), t);
                let at_hi: bool = is_within::<F>(minus::<F>(pair.1, t), lit(E_M9), t);
                assert(near_bound::<F>(theta@, b@, i as int) == (at_lo || at_hi));
                if at_lo || at_hi {
                    any_at_bound = true;
                }
                if !((at_hi && gi.lt(zero())) || (at_lo && zero().lt(gi))) {
                    proj = proj.max(gi.abs());
                }
            }
            any_at_bound && proj.lt(times::<F>(lit(TENTH), plus::<F>(v.abs(), one())))
        },
        None => false,
    }
}

/// Whether some eigenvalue is flat and the gradient along the other directions is
/// below `0.1 (|v| + 1)`. A failed decomposition says no.
pub fn rank_deficient_grad_small<F: Arithmetic>(g: &Vec<Double>, spectrum: Option<&Spectrum>, v: Double) -> (r: bool)
    requires
        lawful::<F>(),
        spectrum matches Some(s) ==> s.fits(g@.len()),
    ensures
        r == rank_deficient_spec::<F>(g@, spectrum, v),
{
    match spectrum {
        Some(s) => {
            let thresh: Double = times::<F>(
                inf_norm(&s.eigs),
                power::<F>(lit(EPSILON), lit(SEVEN_TENTHS)),
            );
            let mut has_null: bool = false;
            let mut proj_max: Double = zero();
            for k in 0..g.len()
                invariant
                    lawful::<F>(),
                    s.fits(g@.len()),
                    thresh == null_thresh_of::<F>(s.eigs@),
                    has_null == exists|m: int| 0 <= m < k && #[trigger] flat_direction::<F>(s.eigs@, m),
                    proj_max == working_grad_upto::<F>(s.eigs@, s.vecs@, g@, k as nat),
            {
                if s.eigs[k].abs().le(thresh) {
                    assert(flat_direction::<F>(s.eigs@, k as int));
                    has_null = true;
                } else {
                    let mut along: Double = zero();
                    for i in 0..g.len()
                        invariant
                            lawful::<F>(),
                            s.fits(g@.len()),
                            k < g@.len(),
                            along == total::<F>(|i: int| times::<F>(s.vecs@[i][k as int], g@[i]), i as nat),
                    {
                        along = plus::<F>(along, times::<F>(s.vecs.get(i, k), g[i]));
                    }
                    proj_max = proj_max.max(along.abs());
                }
            }
            has_null && proj_max.lt(times::<F>(lit(TENTH), plus::<F>(v.abs(), one())))
        },
        None => false,
    }
}

/// Whether a point at which no trial step improved the score is reported as
/// converged.
pub fn step_failure_is_convergence<F: Arithmetic>(p: &StandingPoint) -> (r: bool)
    requires
        lawful::<F>(),
        standing_fits(p),
    ensures
        r == failure_is_optimum::<F>(p),
{
    relaxed_grad_converged::<F>(p.grad_norm, p.v) || kkt_at_boundary::<F>(p.theta, p.raw_step, p.bnds)
        || projected_grad_small::<F>(p.theta, p.g, p.bnds, p.v) || rank_deficient_grad_small::<F>(
        p.g,
        p.spectrum,
        p.v,
    )
}

/// Without a box and without a flat direction, only a small gradient counts.
pub proof fn law_interior_failure_needs_small_gradient<F: Arithmetic>(p: &StandingPoint)
    requires
        standing_fits(p),
        p.bnds is None,
        p.spectrum matches Some(s) ==> forall|k: int|
            0 <= k < p.g@.len() ==> !#[trigger] flat_direction::<F>(s.eigs@, k),
    ensures
        failure_is_optimum::<F>(p) == p.grad_norm.below(score_bar::<F>(lit(E_M3), p.v)),
{
}

/// The Euclidean norm.
pub open spec fn l2_norm_of<F: Arithmetic>(v: Seq<Double>) -> Double {
    root::<F>(total::<F>(|i: int| times::<F>(v[i], v[i]), v.len()))
}

/// The Euclidean norm.
pub fn l2_norm<F: Arithmetic>(v: &Vec<Double>) -> (r: Double)
    requires
        lawful::<F>(),
    ensures
        r == l2_norm_of::<F>(v@),
{
    let mut acc: Double = zero();
    for i in 0..v.len()
        invariant
            lawful::<F>(),
            acc == total::<F>(|i: int| times::<F>(v@[i], v@[i]), i as nat),
    {
        acc = plus::<F>(acc, times::<F>(v[i], v[i]));
    }
    root::<F>(acc)
}

/// `sum_k lam_k v_k v_k'` over the columns of `vecs`.
pub open spec fn recomposed_of<F: Arithmetic>(lam: Seq<Double>, vecs: Seq<Seq<Double>>) -> Seq<Seq<Double>> {
    grid(
        lam.len(),
        lam.len(),
        |i: int, j: int|
            total::<F>(
                |k: int| times::<F>(times::<F>(lam[k], vecs[i][k]), vecs[j][k]),
                lam.len(),
            ),
    )
}

fn recomposed_entry<F: Arithmetic>(lam: &Vec<Double>, vecs: &Matrix, i: usize, j: usize) -> (r: Double)
    requires
        lawful::<F>(),
        vecs.square(lam@.len()),
        i < lam@.len(),
        j < lam@.len(),
    ensures
        r == total::<F>(
            |k: int| times::<F>(times::<F>(lam@[k], vecs@[i as int][k]), vecs@[j as int][k]),
            lam@.len(),
        ),
{
    let mut acc: Double = zero();
    for k in 0..lam.len()
        invariant
            lawful::<F>(),
            vecs.square(lam@.len()),
            i < lam@.len(),
            j < lam@.len(),
            acc == total::<F>(
                |k: int| times::<F>(times::<F>(lam@[k], vecs@[i as int][k]), vecs@[j as int][k]),
                k as nat,
            ),
    {
        acc = plus::<F>(acc, times::<F>(times::<F>(lam[k], vecs.get(i, k)), vecs.get(j, k)));
    }
    acc
}

/// The matrix of given eigenvalues and eigenvectors.
pub fn recompose<F: Arithmetic>(lam: &Vec<Double>, vecs: &Matrix) -> (r: Matrix)
    requires
        lawful::<F>(),
        vecs.square(lam@.len()),
    ensures
        r.square(lam@.len()),
        r@ == recomposed_of::<F>(lam@, vecs@),
{
    let n: usize = lam.len();
    let entry = |i: usize, j: usize| -> (v: Double)
        requires
            i < lam@.len(),
            j < lam@.len(),
        ensures
            v == total::<F>(
                |k: int| times::<F>(times::<F>(lam@[k], vecs@[i as int][k]), vecs@[j as int][k]),
                lam@.len(),
            ),
        { recomposed_entry::<F>(lam, vecs, i, j) };
    let r: Matrix = Matrix::fill(n, n, entry);
    proof {
        r.lemma_is_grid(
            lam@.len(),
            lam@.len(),
            |i: int, j: int|
                total::<F>(
                    |k: int| times::<F>(times::<F>(lam@[k], vecs@[i][k]), vecs@[j][k]),
                    lam@.len(),
                ),
        );
    }
    r
}

/// The only entry of a 1 by 1 matrix replaced.
fn single(x: Double) -> (m: Matrix)
    ensures
        m.square(1),
        m@ == seq![seq![x]],
{
    let mut row: Vec<Double> = Vec::new();
    row.push(x);
    let mut rows: Vec<Vec<Double>> = Vec::new();
    rows.push(row);
    let m: Matrix = Matrix { rows, cols: 1 };
    assert(m@[0] =~= seq![x]);
    assert(m@ =~= seq![seq![x]]);
    m
}

/// An entry, or the floor where the entry is below it.
pub open spec fn lifted(x: Double, floor: Double) -> Double {
    if x.below(floor) {
        floor
    } else {
        x
    }
}

/// The matrix with its eigenvalues lifted to a floor, from its decomposition; the
/// diagonal lifted where there is none.
pub open spec fn psd_with<F: Arithmetic>(sym: Seq<Seq<Double>>, spectrum: Option<Spectrum>, floor: Double) -> Seq<
    Seq<Double>,
> {
    match spectrum {
        Some(s) => recomposed_of::<F>(
            Seq::new(s.eigs@.len(), |k: int| s.eigs@[k].max_spec(floor)),
            s.vecs@,
        ),
        None => grid(
            sym.len(),
            sym.len(),
            |i: int, j: int|
                if i == j {
                    lifted(sym[i][j], floor)
                } else {
                    sym[i][j]
                },
        ),
    }
}

/// `r` is a matrix with its eigenvalues lifted to a floor, as the backend
/// decomposes it. A single entry is lifted as it is.
pub open spec fn psd_of<F: Arithmetic, D: DenseBackend>(h: Seq<Seq<Double>>, floor: Double, r: Seq<Seq<Double>>) -> bool {
    if h.len() == 0 {
        r == h
    } else if h.len() == 1 {
        r == seq![seq![lifted(h[0][0], floor)]]
    } else {
        exists|s: Option<Spectrum>| #[trigger]
            eigh_answered::<D>(symmetrised_of::<F>(h), s) && r == psd_with::<F>(
                symmetrised_of::<F>(h),
                s,
                floor,
            )
    }
}

/// Lifts the eigenvalues of a symmetric matrix to a floor.
pub fn make_psd<F: Arithmetic, D: DenseBackend>(h: &Matrix, floor: Double) -> (r: Matrix)
    requires
        lawful::<F>(),
        h.square(h@.len()),
    ensures
        r.square(h@.len()),
        psd_of::<F, D>(h@, floor, r@),
{
    let d: usize = h.rows.len();
    if d == 0 {
        return h.copy();
    }
    if d == 1 {
        let x: Double = h.get(0, 0);
        let y: Double = if x.lt(floor) {
            floor
        } else {
            x
        };
        return single(y);
    }
    let sym: Matrix = symmetrised::<F>(h);
    let spectrum: Option<Spectrum> = checked_eigh::<D>(&sym, d);
    assert(eigh_answered::<D>(sym@, spectrum));
    psd_from_spectrum::<F>(&sym, spectrum.as_ref(), floor)
}

/// The matrix with the absolute values of its eigenvalues, lifted, from its
/// decomposition; the diagonal treated so where there is none.
pub open spec fn gmw_with<F: Arithmetic>(sym: Seq<Seq<Double>>, spectrum: Option<Spectrum>, floor: Double) -> Seq<
    Seq<Double>,
> {
    match spectrum {
        Some(s) => recomposed_of::<F>(
            Seq::new(
                s.eigs@.len(),
                |k: int| s.eigs@[k].abs_spec().max_spec(gmw_floor_of::<F>(s.eigs@, floor)),
            ),
            s.vecs@,
        ),
        None => grid(
            sym.len(),
            sym.len(),
            |i: int, j: int|
                if i == j {
                    sym[i][j].abs_spec().max_spec(floor)
                } else {
                    sym[i][j]
                },
        ),
    }
}

/// `r` is a matrix with the absolute values of its eigenvalues, lifted, as the
/// backend decomposes it.
pub open spec fn gmw_of<F: Arithmetic, D: DenseBackend>(h: Seq<Seq<Double>>, floor: Double, r: Seq<Seq<Double>>) -> bool {
    if h.len() == 0 {
        r == h
    } else if h.len() == 1 {
        r == seq![seq![h[0][0].abs_spec().max_spec(floor)]]
    } else {
        exists|s: Option<Spectrum>| #[trigger]
            eigh_answered::<D>(symmetrised_of::<F>(h), s) && r == gmw_with::<F>(
                symmetrised_of::<F>(h),
                s,
                floor,
            )
    }
}

/// Takes the absolute values of the eigenvalues of a symmetric matrix and lifts
/// them, so that negative curvature keeps its size and loses its sign.
pub fn make_psd_gmw<F: Arithmetic, D: DenseBackend>(h: &Matrix, floor: Double) -> (r: Matrix)
    requires
        lawful::<F>(),
        h.square(h@.len()),
    ensures
        r.square(h@.len()),
        gmw_of::<F, D>(h@, floor, r@),
{
    let d: usize = h.rows.len();
    if d == 0 {
        return h.copy();
    }
    if d == 1 {
        return single(h.get(0, 0).abs().max(floor));
    }
    let sym: Matrix = symmetrised::<F>(h);
    let spectrum: Option<Spectrum> = checked_eigh::<D>(&sym, d);
    assert(eigh_answered::<D>(sym@, spectrum));
    gmw_from_spectrum::<F>(&sym, spectrum.as_ref(), floor)
}

/// The matrix with its eigenvalues lifted to the floor: negative and tiny ones
/// become the floor. Where there is no decomposition, the diagonal is lifted.
pub fn psd_from_spectrum<F: Arithmetic>(sym: &Matrix, spectrum: Option<&Spectrum>, floor: Double) -> (r: Matrix)
    requires
        lawful::<F>(),
        sym.square(sym@.len()),
        spectrum matches Some(s) ==> s.fits(sym@.len()),
    ensures
        r.square(sym@.len()),
        r@ == psd_with::<F>(sym@, owned_spectrum(spectrum), floor),
{
    match spectrum {
        Some(s) => {
            let lift = |k: usize| -> (v: Double)
                requires
                    k < s.eigs@.len(),
                ensures
                    v == s.eigs@[k as int].max_spec(floor),
                { s.eigs[k].max(floor) };
            let lam: Vec<Double> = fill_vec(s.eigs.len(), lift);
            assert(lam@ =~= Seq::new(s.eigs@.len(), |k: int| s.eigs@[k].max_spec(floor)));
            recompose::<F>(&lam, &s.vecs)
        },
        None => {
            let n: usize = sym.rows.len();
            let entry = |i: usize, j: usize| -> (v: Double)
                requires
                    i < sym@.len(),
                    j < sym@.len(),
                ensures
                    v == (if i == j {
                        lifted(sym@[i as int][j as int], floor)
                    } else {
                        sym@[i as int][j as int]
                    }),
                {
                    let x: Double = sym.get(i, j);
                    if i == j && x.lt(floor) {
                        floor
                    } else {
                        x
                    }
                };
            let r: Matrix = Matrix::fill(n, n, entry);
            proof {
                r.lemma_is_grid(
                    sym@.len(),
                    sym@.len(),
                    |i: int, j: int|
                        if i == j {
                            lifted(sym@[i][j], floor)
                        } else {
                            sym@[i][j]
                        },
                );
            }
            r
        },
    }
}

/// The least eigenvalue that the modified matrix keeps: the largest absolute one
/// times `2^-52` to the power of 0.7, at least the floor.
pub open spec fn gmw_floor_of<F: Arithmetic>(eigs: Seq<Double>, floor: Double) -> Double {
    null_thresh_of::<F>(eigs).max_spec(floor)
}

/// The matrix with the absolute values of its eigenvalues, lifted: negative
/// curvature keeps its size and loses its sign. Where there is no decomposition,
/// the diagonal is treated so.
pub fn gmw_from_spectrum<F: Arithmetic>(sym: &Matrix, spectrum: Option<&Spectrum>, floor: Double) -> (r: Matrix)
    requires
        lawful::<F>(),
        sym.square(sym@.len()),
        spectrum matches Some(s) ==> s.fits(sym@.len()),
    ensures
        r.square(sym@.len()),
        r@ == gmw_with::<F>(sym@, owned_spectrum(spectrum), floor),
{
    match spectrum {
        Some(s) => {
            let low: Double = times::<F>(
                inf_norm(&s.eigs),
                power::<F>(lit(EPSILON), lit(SEVEN_TENTHS)),
            ).max(floor);
            let lift = |k: usize| -> (v: Double)
                requires
                    k < s.eigs@.len(),
                ensures
                    v == s.eigs@[k as int].abs_spec().max_spec(low),
                { s.eigs[k].abs().max(low) };
            let lam: Vec<Double> = fill_vec(s.eigs.len(), lift);
            assert(lam@ =~= Seq::new(
                s.eigs@.len(),
                |k: int| s.eigs@[k].abs_spec().max_spec(gmw_floor_of::<F>(s.eigs@, floor)),
            ));
            recompose::<F>(&lam, &s.vecs)
        },
        None => {
            let n: usize = sym.rows.len();
            let entry = |i: usize, j: usize| -> (v: Double)
                requires
                    i < sym@.len(),
                    j < sym@.len(),
                ensures
                    v == (if i == j {
                        sym@[i as int][j as int].abs_spec().max_spec(floor)
                    } else {
                        sym@[i as int][j as int]
                    }),
                {
                    let x: Double = sym.get(i, j);
                    if i == j {
                        x.abs().max(floor)
                    } else {
                        x
                    }
                };
            let r: Matrix = Matrix::fill(n, n, entry);
            proof {
                r.lemma_is_grid(
                    sym@.len(),
                    sym@.len(),
                    |i: int, j: int|
                        if i == j {
                            sym@[i][j].abs_spec().max_spec(floor)
                        } else {
                            sym@[i][j]
                        },
                );
            }
            r
        },
    }
}

/// A lifted eigenvalue is never below the floor and never NaN, and one above the
/// floor is left alone.
pub proof fn law_lifted_spectrum(x: Double, floor: Double)
    requires
        !floor.nan(),
    ensures
        floor.at_most(x.max_spec(floor)),
        floor.below(x) ==> x.max_spec(floor) == x,
        floor.at_most(x.abs_spec().max_spec(floor)),
        !x.nan() && floor.below(x.abs_spec()) ==> x.abs_spec().max_spec(floor) == x.abs_spec(),
{
}

} // verus!
