//! What a family and a linear-algebra library supply. Nothing is promised of
//! these methods here: whatever they answer, the routines that call them check
//! the lengths they rely on.

use vstd::prelude::*;

use crate::double::Double;
use crate::matrix::Matrix;
use crate::outer::step::Spectrum;
use crate::score::shape_aware::level2::{Level1ShapeDerivs, Level2ShapeDerivs};

verus! {

/// A link function and its derivatives at a mean.
pub trait Link: Clone {
    /// The linear predictor of a mean.
    fn link(&self, mu: Double) -> Double;

    /// The mean of a linear predictor.
    fn inverse_link(&self, eta: Double) -> Double;

    /// First derivative of the link.
    fn d_link_dmu(&self, mu: Double) -> Double;

    /// Second derivative of the link.
    fn d2_link_dmu(&self, mu: Double) -> Double;

    /// Third derivative of the link.
    fn d3_link_dmu(&self, mu: Double) -> Double;
}

/// A variance function and its derivatives at a mean.
pub trait VarianceFn: Clone {
    /// The variance.
    fn variance(&self, mu: Double) -> Double;

    /// First derivative of the variance.
    fn d_variance(&self, mu: Double) -> Double;

    /// Second derivative of the variance.
    fn d2_variance(&self, mu: Double) -> Double;
}

/// A loss: the deviance of an observation and what the iterations ask of it.
pub trait Loss: Clone {
    /// Deviance of one observation.
    fn deviance_per_obs(&self, y: Double, mu: Double) -> Double;

    /// A mean to start from, for each observation.
    fn initial_mu(&self, y: &Vec<Double>) -> Vec<Double>;

    /// Whether the iterations use the observed information.
    fn use_newton_irls(&self) -> bool;

    /// Working weights and response of the family's own making, where it has
    /// them.
    fn irls_observed_pair(
        &self,
        y: &Vec<Double>,
        mu: &Vec<Double>,
        eta: &Vec<Double>,
        prior_w: &Vec<Double>,
    ) -> Option<(Vec<Double>, Vec<Double>)>;

    /// Saturated log-likelihood of one observation at a dispersion.
    fn saturated_log_lik(&self, y: Double, sigma2: Double) -> Double;

    /// The profiled dispersion for a penalised deviance, a number of
    /// observations, `n - Mp` and a value to start from.
    fn profile_score_sigma2(&self, dp: Double, n: usize, n_minus_mp: Double, phi_init: Double) -> Double;

    /// Whether the profiled dispersion is `Dp / (n - Mp)`.
    fn profile_sigma2_is_closed_form(&self) -> bool;

    /// The dispersion that the family holds, where it holds one.
    fn fixed_dispersion(&self) -> Option<Double>;

    /// Whether trial points may start from propagated coefficients.
    fn allows_no_refresh(&self) -> bool;

    /// Whether the Hessian leaves out the change of the weights.
    fn skip_w_chain_in_hessian(&self) -> bool;

    /// Observed curvature of each observation, where the family supplies it.
    fn observed_curvature_weights(&self, y: &Vec<Double>, eta: &Vec<Double>, prior_w: &Vec<Double>) -> Option<
        Vec<Double>,
    >;
}

/// A loss with its link and its variance function.
pub struct Family<L: Loss, K: Link, V: VarianceFn> {
    /// Loss.
    pub loss: L,
    /// Link.
    pub link: K,
    /// Variance function.
    pub variance: V,
}

impl<L: Loss, K: Link, V: VarianceFn> Family<L, K, V> {
    /// Each part is a clone of another family's.
    pub open spec fn cloned_from(&self, f: Family<L, K, V>) -> bool {
        cloned(f.loss, self.loss) && cloned(f.link, self.link) && cloned(f.variance, self.variance)
    }

    /// A copy, part by part.
    pub fn copy(&self) -> (f: Family<L, K, V>)
        ensures
            f.cloned_from(*self),
    {
        Family {
            loss: self.loss.clone(),
            link: self.link.clone(),
            variance: self.variance.clone(),
        }
    }
}

/// A loss whose shape parameters the outer search may move. The derivatives are
/// those of each observation's deviance.
pub trait ShapeLoss<K: Link, V: VarianceFn>: Loss + Sized {
    /// Number of shape parameters.
    fn n_shape_params(&self) -> usize;

    /// The family at given shape parameters.
    fn set_shape_params(base: &Family<Self, K, V>, shape: &Vec<Double>) -> Family<Self, K, V>;

    /// What is added to the rank of each penalty in the score.
    fn score_rank_adjustment(&self) -> i32;

    /// Largest step of each shape parameter.
    fn shape_axis_step_caps(&self) -> Vec<Double>;

    /// Bounds of each shape parameter.
    fn shape_axis_bounds(&self) -> Vec<(Double, Double)>;

    /// Derivatives of the weights in the log determinant, along the shape
    /// parameters and along the mean, where they are not those of the deviance.
    fn ift_trace_weight_derivs(&self, y: &Vec<Double>, eta: &Vec<Double>, prior_w: &Vec<Double>) -> Option<
        (Matrix, Vec<Double>),
    >;

    /// First derivatives.
    fn level1_shape_derivatives(&self, y: &Vec<Double>, eta: &Vec<Double>, prior_w: &Vec<Double>) -> Option<
        Level1ShapeDerivs,
    >;

    /// Second derivatives.
    fn level2_shape_derivatives(&self, y: &Vec<Double>, eta: &Vec<Double>, prior_w: &Vec<Double>) -> Option<
        Level2ShapeDerivs,
    >;

    /// The score's gradient along the shape parameters in closed form.
    fn analytic_shape_score_gradient(
        &self,
        y: &Vec<Double>,
        mu: &Vec<Double>,
        dp: Double,
        n_minus_mp: Double,
        phi: Double,
    ) -> Option<Vec<Double>>;

    /// The score's Hessian along the shape parameters in closed form.
    fn analytic_shape_score_hessian(
        &self,
        y: &Vec<Double>,
        mu: &Vec<Double>,
        dp: Double,
        n_minus_mp: Double,
        phi: Double,
    ) -> Option<Matrix>;

    /// Whether the Hessian is always taken by differences of the score.
    fn prefers_full_fd_hessian(&self) -> bool;

    /// Derivative of an observation's deviance along the mean.
    fn d_loss_dmu(&self, y: Double, mu: Double) -> Double;

    /// Second derivative of an observation's deviance along the mean.
    fn d2_loss_dmu(&self, y: Double, mu: Double) -> Double;

    /// Derivatives of the saturated log-likelihood along the shape parameters.
    fn sum_saturated_log_lik_dtheta(&self, y: &Vec<Double>, phi: Double, prior_w: &Vec<Double>) -> Vec<
        Double,
    >;

    /// Second derivatives of the saturated log-likelihood, one for each pair of
    /// shape parameters.
    fn sum_saturated_log_lik_d2theta(&self, y: &Vec<Double>, phi: Double, prior_w: &Vec<Double>) -> Vec<
        Double,
    >;
}

/// Factorisations of a linear-algebra library.
pub trait DenseBackend {
    /// The lower Cholesky factor, or why there is none.
    fn cholesky(a: &Matrix) -> Result<Matrix, String>;

    /// The eigenvalues and eigenvectors of a symmetric matrix; `None` on failure.
    fn eigh(a: &Matrix) -> Option<Spectrum>;

    /// The solution of `A x = b`; `None` on failure.
    fn solve(a: &Matrix, b: &Vec<Double>) -> Option<Vec<Double>>;
}

/// `l` is the lower factor that `D` gives of a square matrix `a`.
pub open spec fn chol_of<D: DenseBackend>(a: Seq<Seq<Double>>, l: Matrix) -> bool {
    l.square(a.len()) && exists|m: Matrix|
        m@ == a && m.square(a.len()) && #[trigger] call_ensures(D::cholesky, (&m,), Ok(l))
}

/// `D` answers a square matrix `a` without a lower factor of its size.
pub open spec fn chol_fails<D: DenseBackend>(a: Seq<Seq<Double>>) -> bool {
    exists|m: Matrix, r: Result<Matrix, String>|
        m@ == a && m.square(a.len()) && #[trigger] call_ensures(D::cholesky, (&m,), r) && (r matches Ok(l) ==> !l.square(
            a.len(),
        ))
}

/// `D` answers a square matrix `a` without a decomposition of its size.
pub open spec fn eigh_fails<D: DenseBackend>(a: Seq<Seq<Double>>) -> bool {
    exists|m: Matrix, r: Option<Spectrum>|
        m@ == a && m.square(a.len()) && #[trigger] call_ensures(D::eigh, (&m,), r) && (r matches Some(s) ==> !s.fits(a.len()))
}

/// `s` is the decomposition that `D` gives of a square matrix `a`.
pub open spec fn eigh_of<D: DenseBackend>(a: Seq<Seq<Double>>, s: Spectrum) -> bool {
    s.fits(a.len()) && exists|m: Matrix|
        m@ == a && m.square(a.len()) && #[trigger] call_ensures(D::eigh, (&m,), Some(s))
}

/// `D` answers a decomposition of a square matrix `a`, or has none of its size.
pub open spec fn eigh_answered<D: DenseBackend>(a: Seq<Seq<Double>>, s: Option<Spectrum>) -> bool {
    match s {
        Some(sp) => eigh_of::<D>(a, sp),
        None => eigh_fails::<D>(a),
    }
}

/// `D` answers the system of a square matrix `a` and a right-hand side `b`
/// with a solution of the right length, or has none.
pub open spec fn solve_answered<D: DenseBackend>(
    a: Seq<Seq<Double>>,
    b: Seq<Double>,
    x: Option<Seq<Double>>,
) -> bool {
    exists|m: Matrix, v: Vec<Double>, o: Option<Vec<Double>>| #[trigger]
        call_ensures(D::solve, (&m, &v), o) && m@ == a && m.square(a.len()) && v@ == b && x == (match o {
            Some(u) => if u@.len() == b.len() {
                Some(u@)
            } else {
                None
            },
            None => None,
        })
}

/// The solution of a system, if there is one of the right length.
pub fn checked_solve<D: DenseBackend>(a: &Matrix, b: &Vec<Double>) -> (r: Option<Vec<Double>>)
    requires
        a.square(a@.len()),
    ensures
        solve_answered::<D>(
            a@,
            b@,
            match r {
                Some(x) => Some(x@),
                None => None,
            },
        ),
        r matches Some(x) ==> x@.len() == b@.len(),
{
    match D::solve(a, b) {
        Some(x) => if x.len() == b.len() {
            Some(x)
        } else {
            None
        },
        None => None,
    }
}

/// Whether a matrix has `n` rows of `p` entries.
pub fn is_shape(m: &Matrix, n: usize, p: usize) -> (r: bool)
    ensures
        r == m.shape(n as nat, p as nat),
{
    if m.rows.len() != n || m.cols != p {
        return false;
    }
    for i in 0..n
        invariant
            m.rows@.len() == n,
            m.cols == p,
            forall|k: int| 0 <= k < i ==> (#[trigger] m.rows@[k])@.len() == p,
    {
        if m.rows[i].len() != p {
            return false;
        }
    }
    true
}

/// Whether a matrix has `n` rows of `n` entries.
pub fn is_square(m: &Matrix, n: usize) -> (r: bool)
    ensures
        r == m.square(n as nat),
{
    is_shape(m, n, n)
}

/// The library has no factor of the right shape, for the reason that `t` gives.
pub open spec fn chol_refused<D: DenseBackend>(a: Seq<Seq<Double>>, n: nat, t: Seq<char>) -> bool {
    exists|m: Matrix, o: Result<Matrix, String>| #[trigger]
        call_ensures(D::cholesky, (&m,), o) && m@ == a && m.square(a.len()) && match o {
            Ok(l) => !l.square(n) && t == "factor has the wrong shape"@,
            Err(u) => t == u@,
        }
}

/// The Cholesky factor, if there is one of the right shape.
pub fn checked_cholesky<D: DenseBackend>(a: &Matrix, n: usize) -> (r: Result<Matrix, String>)
    requires
        a.square(a@.len()),
    ensures
        match r {
            Ok(l) => l.square(n as nat) && call_ensures(D::cholesky, (a,), Ok(l)),
            Err(t) => chol_refused::<D>(a@, n as nat, t@) && exists|o: Result<Matrix, String>|
                #[trigger] call_ensures(D::cholesky, (a,), o) && (o matches Ok(l) ==> !l.square(n as nat)),
        },
{
    match D::cholesky(a) {
        Ok(l) => if is_square(&l, n) {
            Ok(l)
        } else {
            Err("factor has the wrong shape".to_owned())
        },
        Err(t) => Err(t),
    }
}

/// The decomposition, if there is one of the right shape.
pub fn checked_eigh<D: DenseBackend>(a: &Matrix, n: usize) -> (r: Option<Spectrum>)
    ensures
        match r {
            Some(s) => s.fits(n as nat) && call_ensures(D::eigh, (a,), Some(s)),
            None => exists|o: Option<Spectrum>| #[trigger]
                call_ensures(D::eigh, (a,), o) && (o matches Some(s) ==> !s.fits(n as nat)),
        },
{
    match D::eigh(a) {
        Some(s) => if s.eigs.len() == n && is_square(&s.vecs, n) {
            Some(s)
        } else {
            None
        },
        None => None,
    }
}

} // verus!
