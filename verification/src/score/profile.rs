//! Which dispersion a score is evaluated at.

use vstd::prelude::*;

use crate::arith::{count, lawful, minus, over, plus, times, Arithmetic};
use crate::double::{lit, one, zero, Double, E_M8};
use crate::inner::linalg::LinearSolver;
use crate::inner::GaussianInnerFit;
use crate::matrix::fill_vec;
use crate::traits::Loss;

verus! {

/// What the dispersion is computed from.
#[derive(Clone, Copy, Debug, PartialEq, Eq, Structural)]
pub struct DispersionInputs {
    /// Smoothing parameter.
    pub lambda: Double,
    /// Quadratic penalty.
    pub bsb: Double,
    /// `tr(H^-1 X'WX)`.
    pub tr_hinv_xtwx: Double,
    /// Dimension of the unpenalised space.
    pub mp: usize,
}

/// A convention for the dispersion.
pub trait Profile<F: Arithmetic, L: Loss>: Sized {
    /// What the dispersion comes to for `n` observations and a deviance.
    spec fn disperses(&self, loss: L, n: usize, deviance: Double, x: DispersionInputs, r: Option<Double>) -> bool;

    /// What the derivatives of the dispersion along the log smoothing parameters
    /// come to.
    spec fn slopes(
        &self,
        loss: L,
        n: usize,
        bsb: Seq<Double>,
        lambda: Seq<Double>,
        mp: usize,
        r: Option<Vec<Double>>,
    ) -> bool;

    /// The dispersion at a fit; `None` where the fit is not physical.
    fn dispersion<S: LinearSolver>(&self, loss: &L, inner: &GaussianInnerFit<S>, x: DispersionInputs) -> (r: Option<
        Double,
    >)
        requires
            lawful::<F>(),
        ensures
            self.disperses(*loss, inner.n, inner.deviance, x, r),
    ;

    /// The derivatives of the dispersion along the log smoothing parameters;
    /// `None` where no closed form is known.
    fn dispersion_drho<S: LinearSolver>(
        &self,
        loss: &L,
        inner: &GaussianInnerFit<S>,
        bsb_per_term: &Vec<Double>,
        lambda_j: &Vec<Double>,
        mp: usize,
    ) -> (r: Option<Vec<Double>>)
        requires
            lawful::<F>(),
            lambda_j@.len() == bsb_per_term@.len(),
        ensures
            self.slopes(*loss, inner.n, bsb_per_term@, lambda_j@, mp, r),
    ;
}

/// The dispersion is profiled out: `Dp / (n - Mp)`, or what the family makes of
/// it.
#[derive(Clone, Copy, Debug, Default, PartialEq, Eq, Structural)]
pub struct MgcvTwoSigmaProfile;

/// `n - Mp`.
pub open spec fn n_minus_mp_of<F: Arithmetic>(n: usize, mp: usize) -> Double {
    minus::<F>(count::<F>(n), count::<F>(mp))
}

/// `D + lambda b'Sb`.
pub open spec fn dp_of<F: Arithmetic>(deviance: Double, x: DispersionInputs) -> Double {
    plus::<F>(deviance, times::<F>(x.lambda, x.bsb))
}

/// The counts of free observations, the deviance and the penalised deviance are
/// all above zero, as far as they compare.
pub open spec fn physical<F: Arithmetic>(n: usize, deviance: Double, x: DispersionInputs) -> bool {
    &&& !n_minus_mp_of::<F>(n, x.mp).at_most(zero())
    &&& !minus::<F>(count::<F>(n), x.tr_hinv_xtwx).at_most(zero())
    &&& !dp_of::<F>(deviance, x).at_most(zero())
    &&& !deviance.at_most(zero())
}

impl<F: Arithmetic, L: Loss> Profile<F, L> for MgcvTwoSigmaProfile {
    open spec fn disperses(&self, loss: L, n: usize, deviance: Double, x: DispersionInputs, r: Option<Double>) -> bool {
        if physical::<F>(n, deviance, x) {
            let dp = dp_of::<F>(deviance, x);
            let nm = n_minus_mp_of::<F>(n, x.mp);
            r is Some && exists|s: Double| #[trigger]
                call_ensures(L::profile_score_sigma2, (&loss, dp, n, nm, over::<F>(dp, nm)), s) && r
                    == Some(s.max_spec(lit(E_M8)))
        } else {
            r is None
        }
    }

    open spec fn slopes(
        &self,
        loss: L,
        n: usize,
        bsb: Seq<Double>,
        lambda: Seq<Double>,
        mp: usize,
        r: Option<Vec<Double>>,
    ) -> bool {
        exists|closed: bool| #[trigger]
            call_ensures(L::profile_sigma2_is_closed_form, (&loss,), closed) && if closed
                && !n_minus_mp_of::<F>(n, mp).at_most(zero()) {
                r matches Some(v) && v@ == Seq::new(
                    bsb.len(),
                    |i: int|
                        over::<F>(times::<F>(lambda[i], bsb[i]), n_minus_mp_of::<F>(n, mp)),
                )
            } else {
                r is None
            }
    }

    fn dispersion<S: LinearSolver>(&self, loss: &L, inner: &GaussianInnerFit<S>, x: DispersionInputs) -> (r: Option<
        Double,
    >) {
        let nm: Double = minus::<F>(count::<F>(inner.n), count::<F>(x.mp));
        let n_eff: Double = minus::<F>(count::<F>(inner.n), x.tr_hinv_xtwx);
        let dp: Double = plus::<F>(inner.deviance, times::<F>(x.lambda, x.bsb));
        if nm.le(zero()) || n_eff.le(zero()) || dp.le(zero()) || inner.deviance.le(zero()) {
            return None;
        }
        let s: Double = loss.profile_score_sigma2(dp, inner.n, nm, over::<F>(dp, nm));
        Some(s.max(lit(E_M8)))
    }

    fn dispersion_drho<S: LinearSolver>(
        &self,
        loss: &L,
        inner: &GaussianInnerFit<S>,
        bsb_per_term: &Vec<Double>,
        lambda_j: &Vec<Double>,
        mp: usize,
    ) -> (r: Option<Vec<Double>>) {
        if !loss.profile_sigma2_is_closed_form() {
            return None;
        }
        let nm: Double = minus::<F>(count::<F>(inner.n), count::<F>(mp));
        if nm.le(zero()) {
            return None;
        }
        let entry = |i: usize| -> (v: Double)
            requires
                i < bsb_per_term@.len(),
            ensures
                v == over::<F>(times::<F>(lambda_j@[i as int], bsb_per_term@[i as int]), nm),
            { over::<F>(times::<F>(lambda_j[i], bsb_per_term[i]), nm) };
        let v: Vec<Double> = fill_vec(bsb_per_term.len(), entry);
        assert(v@ =~= Seq::new(
            bsb_per_term@.len(),
            |i: int|
                over::<F>(
                    times::<F>(lambda_j@[i], bsb_per_term@[i]),
                    n_minus_mp_of::<F>(inner.n, mp),
                ),
        ));
        Some(v)
    }
}

/// The dispersion is 1.
#[derive(Clone, Copy, Debug, Default, PartialEq, Eq, Structural)]
pub struct FixedAtOneProfile;

impl<F: Arithmetic, L: Loss> Profile<F, L> for FixedAtOneProfile {
    open spec fn disperses(&self, loss: L, n: usize, deviance: Double, x: DispersionInputs, r: Option<Double>) -> bool {
        r == Some(one())
    }

    open spec fn slopes(
        &self,
        loss: L,
        n: usize,
        bsb: Seq<Double>,
        lambda: Seq<Double>,
        mp: usize,
        r: Option<Vec<Double>>,
    ) -> bool {
        r matches Some(v) && v@ == Seq::new(bsb.len(), |i: int| zero())
    }

    fn dispersion<S: LinearSolver>(&self, loss: &L, inner: &GaussianInnerFit<S>, x: DispersionInputs) -> (r: Option<
        Double,
    >) {
        Some(one())
    }

    fn dispersion_drho<S: LinearSolver>(
        &self,
        loss: &L,
        inner: &GaussianInnerFit<S>,
        bsb_per_term: &Vec<Double>,
        lambda_j: &Vec<Double>,
        mp: usize,
    ) -> (r: Option<Vec<Double>>) {
        let entry = |i: usize| -> (v: Double)
            ensures
                v == zero(),
            { zero() };
        let v: Vec<Double> = fill_vec(bsb_per_term.len(), entry);
        assert(v@ =~= Seq::new(bsb_per_term@.len(), |i: int| zero()));
        Some(v)
    }
}

/// The dispersion is the one the family holds, 1 where it holds none.
#[derive(Clone, Copy, Debug, Default, PartialEq, Eq, Structural)]
pub struct OwnedByLossProfile;

impl<F: Arithmetic, L: Loss> Profile<F, L> for OwnedByLossProfile {
    open spec fn disperses(&self, loss: L, n: usize, deviance: Double, x: DispersionInputs, r: Option<Double>) -> bool {
        exists|own: Option<Double>| #[trigger]
            call_ensures(L::fixed_dispersion, (&loss,), own) && r == Some(
                match own {
                    Some(v) => v,
                    None => one(),
                },
            )
    }

    open spec fn slopes(
        &self,
        loss: L,
        n: usize,
        bsb: Seq<Double>,
        lambda: Seq<Double>,
        mp: usize,
        r: Option<Vec<Double>>,
    ) -> bool {
        r is None
    }

    fn dispersion<S: LinearSolver>(&self, loss: &L, inner: &GaussianInnerFit<S>, x: DispersionInputs) -> (r: Option<
        Double,
    >) {
        match loss.fixed_dispersion() {
            Some(v) => Some(v),
            None => Some(one()),
        }
    }

    fn dispersion_drho<S: LinearSolver>(
        &self,
        loss: &L,
        inner: &GaussianInnerFit<S>,
        bsb_per_term: &Vec<Double>,
        lambda_j: &Vec<Double>,
        mp: usize,
    ) -> (r: Option<Vec<Double>>) {
        None
    }
}

/// A profiled dispersion is never below 1e-8, and there is none exactly where the
/// fit is not physical.
pub proof fn law_profiled_dispersion<F: Arithmetic, L: Loss>(
    loss: L,
    n: usize,
    deviance: Double,
    x: DispersionInputs,
    r: Option<Double>,
)
    requires
        <MgcvTwoSigmaProfile as Profile<F, L>>::disperses(&MgcvTwoSigmaProfile, loss, n, deviance, x, r),
    ensures
        r is Some <==> physical::<F>(n, deviance, x),
        r matches Some(v) ==> lit(E_M8).at_most(v),
{
}

} // verus!
