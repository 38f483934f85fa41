//! The outer optimiser over the smoothing and shape parameters: its tuning, the
//! choice of algorithm, and the searches.

use vstd::prelude::*;

use crate::double::{lit, Double, E_M3, E_M7, E_M8, FIVE};
use crate::error::GamrsError;

pub mod exact_laws;
pub mod fellner_schall;
pub mod laws;
pub mod minimize;
pub mod newton;
pub mod step;

verus! {

/// Tolerances and limits of the Newton search.
#[derive(Clone, Copy, Debug, PartialEq, Eq, Structural)]
pub struct NewtonOpts {
    /// Iteration limit.
    pub max_iters: usize,
    /// The gradient is small if it is below this times `|score| + 1`.
    pub grad_tol: Double,
    /// The score is at rest if its relative change is at most this.
    pub reml_tol: Double,
    /// Step factor below which a line search gives up.
    pub step_min: Double,
    /// Lower bound on the curvature a step is computed from.
    pub hess_floor: Double,
    /// Cap on the largest absolute component of a step.
    pub max_step: Double,
}

/// What a family sets of the search; the rest is filled in by
/// [`OuterTuning::to_newton_opts`].
#[derive(Clone, Copy, Debug, PartialEq, Eq, Structural)]
pub struct OuterTuning {
    /// The gradient is small if it is below this times `|score| + 1`.
    pub grad_tol: Double,
    /// The score is at rest if its relative change is at most this.
    pub reml_tol: Double,
    /// Iteration limit.
    pub max_iters: usize,
    /// Cap on the largest absolute component of a step.
    pub max_step: Double,
}

/// Tolerances 1e-7, 200 iterations, steps up to 5.
pub open spec fn default_tuning() -> OuterTuning {
    OuterTuning {
        grad_tol: lit(E_M7),
        reml_tol: lit(E_M7),
        max_iters: 200,
        max_step: lit(FIVE),
    }
}

/// The tuning with a least step factor of 1e-3 and a curvature floor of 1e-8.
pub open spec fn newton_opts_of(t: OuterTuning) -> NewtonOpts {
    NewtonOpts {
        max_iters: t.max_iters,
        grad_tol: t.grad_tol,
        reml_tol: t.reml_tol,
        step_min: lit(E_M3),
        hess_floor: lit(E_M8),
        max_step: t.max_step,
    }
}

impl OuterTuning {
    /// The default: tolerances 1e-7, 200 iterations, steps up to 5.
    pub fn mgcv_default() -> (t: OuterTuning)
        ensures
            t == default_tuning(),
    {
        OuterTuning {
            grad_tol: lit(E_M7),
            reml_tol: lit(E_M7),
            max_iters: 200,
            max_step: lit(FIVE),
        }
    }

    /// The options of a search with this tuning.
    pub fn to_newton_opts(self) -> (o: NewtonOpts)
        ensures
            o == newton_opts_of(self),
    {
        NewtonOpts {
            max_iters: self.max_iters,
            grad_tol: self.grad_tol,
            reml_tol: self.reml_tol,
            step_min: lit(E_M3),
            hess_floor: lit(E_M8),
            max_step: self.max_step,
        }
    }
}

impl Default for OuterTuning {
    fn default() -> (t: OuterTuning)
        ensures
            t == default_tuning(),
    {
        OuterTuning::mgcv_default()
    }
}

impl Default for NewtonOpts {
    fn default() -> (o: NewtonOpts)
        ensures
            o == newton_opts_of(default_tuning()),
    {
        OuterTuning::mgcv_default().to_newton_opts()
    }
}

/// Which outer search a fit runs.
#[derive(Debug, Clone, Copy, PartialEq, Eq, Structural)]
pub enum OuterAlgorithm {
    /// Damped Newton on the score.
    Newton,
    /// The multiplicative update of the smoothing parameters.
    FellnerSchall,
}

/// Settings that replace a family's own, where they are set. One per thread of
/// fits.
#[derive(Clone, Copy, Debug, PartialEq, Eq, Structural)]
pub struct Overrides {
    /// Tuning in place of the family's.
    pub tuning: Option<OuterTuning>,
    /// Algorithm in place of Newton.
    pub algorithm: Option<OuterAlgorithm>,
}

impl Overrides {
    /// Nothing set.
    pub fn new() -> (o: Overrides)
        ensures
            o.tuning is None,
            o.algorithm is None,
    {
        Overrides { tuning: None, algorithm: None }
    }
}

/// Replaces the tuning of all later fits.
pub fn set_tuning_override(o: &mut Overrides, tuning: OuterTuning)
    ensures
        *final(o) == (Overrides { tuning: Some(tuning), ..*old(o) }),
{
    o.tuning = Some(tuning);
}

/// Later fits use their family's tuning again.
pub fn clear_tuning_override(o: &mut Overrides)
    ensures
        *final(o) == (Overrides { tuning: None, ..*old(o) }),
{
    o.tuning = None;
}

/// The tuning in force.
pub open spec fn tuning_in_force(o: Overrides, family: OuterTuning) -> OuterTuning {
    match o.tuning {
        Some(t) => t,
        None => family,
    }
}

/// The tuning in force for a family: the replacement if one is set, else the
/// family's own.
pub fn resolve_tuning(o: &Overrides, family: OuterTuning) -> (t: OuterTuning)
    ensures
        t == tuning_in_force(*o, family),
{
    match o.tuning {
        Some(t) => t,
        None => family,
    }
}

/// Replaces the algorithm of all later fits.
pub fn set_algorithm_override(o: &mut Overrides, algo: OuterAlgorithm)
    ensures
        *final(o) == (Overrides { algorithm: Some(algo), ..*old(o) }),
{
    o.algorithm = Some(algo);
}

/// Later fits run Newton again.
pub fn clear_algorithm_override(o: &mut Overrides)
    ensures
        *final(o) == (Overrides { algorithm: None, ..*old(o) }),
{
    o.algorithm = None;
}

/// The algorithm in force.
pub open spec fn algorithm_in_force(o: Overrides) -> OuterAlgorithm {
    match o.algorithm {
        Some(a) => a,
        None => OuterAlgorithm::Newton,
    }
}

/// The algorithm in force: the replacement if one is set, else Newton.
pub fn resolved_algorithm(o: &Overrides) -> (a: OuterAlgorithm)
    ensures
        a == algorithm_in_force(*o),
{
    match o.algorithm {
        Some(a) => a,
        None => OuterAlgorithm::Newton,
    }
}

/// The text every refusal of the Fellner-Schall search starts with. The Python
/// wrapper looks for it to fall back on REML.
pub const FS_UNAVAILABLE_MARKER: &'static str = "method='fREML' (Fellner-Schall) is not implemented for the";

/// What follows the name of the fit path in a refusal.
pub const FS_REFUSAL_TAIL: &'static str = " fit path, which runs damped Newton on the REML score instead. Pass method='REML'. Both optimise the same REML criterion and Newton is generally the stronger optimiser here, so this is an optimiser restriction, not a model change.";

/// The text of a refusal on a fit path.
pub open spec fn refusal_text(path: Seq<char>) -> Seq<char> {
    FS_UNAVAILABLE_MARKER@ + " "@ + path + FS_REFUSAL_TAIL@
}

/// Refuses the Fellner-Schall search on a fit path that has none. Succeeds if
/// and only if Newton is in force.
pub fn reject_unsupported_algorithm(o: &Overrides, path: &str) -> (r: Result<(), GamrsError>)
    ensures
        r is Ok <==> algorithm_in_force(*o) is Newton,
        r matches Err(e) ==> (e matches GamrsError::InvalidParameter(m) && m@ == refusal_text(path@)),
{
    match resolved_algorithm(o) {
        OuterAlgorithm::Newton => Ok(()),
        OuterAlgorithm::FellnerSchall => {
            let mut m: String = FS_UNAVAILABLE_MARKER.to_owned();
            m.append(" ");
            m.append(path);
            m.append(FS_REFUSAL_TAIL);
            Err(GamrsError::InvalidParameter(m))
        },
    }
}

/// Damped Newton with step halving.
#[derive(Clone, Copy, Debug, PartialEq, Eq, Structural)]
pub struct NewtonWithHalving {
    /// Tolerances and limits.
    pub opts: NewtonOpts,
}

impl NewtonWithHalving {
    /// A search with these options.
    pub fn new(opts: NewtonOpts) -> (s: NewtonWithHalving)
        ensures
            s.opts == opts,
    {
        NewtonWithHalving { opts }
    }

    /// Begins a search over `dim` parameters.
    pub fn begin(&self, dim: usize) -> (s: newton::NewtonRun)
        ensures
            s == newton::NewtonRun::started(self.opts, dim),
            s.wf(),
    {
        newton::NewtonRun::start(self.opts, dim)
    }
}

impl Default for NewtonWithHalving {
    fn default() -> (s: NewtonWithHalving)
        ensures
            s.opts == newton_opts_of(default_tuning()),
    {
        NewtonWithHalving::new(OuterTuning::mgcv_default().to_newton_opts())
    }
}

/// What is set is in force until it is set again or cleared; clearing restores
/// the family's tuning, or Newton. Neither setting touches the other.
pub proof fn law_override_in_force(o: Overrides, t: OuterTuning, a: OuterAlgorithm, family: OuterTuning)
    ensures
        tuning_in_force(Overrides { tuning: Some(t), ..o }, family) == t,
        tuning_in_force(Overrides { tuning: None, ..o }, family) == family,
        algorithm_in_force(Overrides { algorithm: Some(a), ..o }) == a,
        algorithm_in_force(Overrides { algorithm: None, ..o }) is Newton,
        algorithm_in_force(Overrides { tuning: Some(t), ..o }) == algorithm_in_force(o),
        tuning_in_force(Overrides { algorithm: Some(a), ..o }, family) == tuning_in_force(o, family),
{
}

/// Every refusal starts with the marker, whatever the fit path.
pub proof fn law_refusal_starts_with_the_marker(path: Seq<char>)
    ensures
        refusal_text(path).len() >= FS_UNAVAILABLE_MARKER@.len(),
        refusal_text(path).subrange(0, FS_UNAVAILABLE_MARKER@.len() as int) == FS_UNAVAILABLE_MARKER@,
{
    assert(refusal_text(path).subrange(0, FS_UNAVAILABLE_MARKER@.len() as int)
        =~= FS_UNAVAILABLE_MARKER@);
}

} // verus!
