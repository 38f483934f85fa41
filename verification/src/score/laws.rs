//! Laws of the scores' derivatives.

use vstd::prelude::*;

use crate::arith::Arithmetic;
use crate::double::{lit, one, Double, E_M4};
use crate::error::GamrsError;
use crate::inner::linalg::LinearSolver;
use crate::inner::pirls::curvature::ObservedPdCounts;
use crate::inner::solver::InnerSolver;
use crate::inner::GaussianInnerFit;
use crate::matrix::{symmetric, Matrix};
use crate::outer::minimize::{Evaluation, ScoreDerivatives, ScoreMemory};
use crate::score::envelope::{differences_of, lambdas_of, EnvelopeAcceptedState, EnvelopeScore};
use crate::score::profile::Profile;
use crate::score::shape_aware::builder::ShapeInnerBuilder;
use crate::score::shape_aware::evaluate::AcceptedState;
use crate::score::shape_aware::gradient::FrozenBetaCtx;
use crate::score::shape_aware::hessian::{bordered_of, with_block_of, RhoHessInputs};
use crate::score::shape_aware::score::ShapeAwareEnvelopeScore;
use crate::traits::{DenseBackend, Family, Link, Loss, ShapeLoss, VarianceFn};

verus! {

/// The Hessian of the score over smoothing parameters is symmetric, in closed form
/// and by differences.
pub proof fn law_hessian_is_symmetric<
    F: Arithmetic,
    L: Loss,
    I: InnerSolver<F, D, S>,
    P: Profile<F, L>,
    D: DenseBackend,
    S: LinearSolver,
>(
    score: EnvelopeScore<L, I, P, D, S>,
    before: ScoreMemory<EnvelopeAcceptedState>,
    theta: Seq<Double>,
    ev: Evaluation,
    after: ScoreMemory<EnvelopeAcceptedState>,
)
    requires
        ScoreDerivatives::<F>::evaluates(&score, before, theta, Ok::<Evaluation, GamrsError>(ev), after),
    ensures
        symmetric(ev.hess@),
{
}

/// The family's own block of the shape parameters is symmetric wherever it answers
/// one.
pub open spec fn blocks_symmetric<
    F: Arithmetic,
    L: ShapeLoss<K, V>,
    K: Link,
    V: VarianceFn,
    B,
    P,
    D: DenseBackend,
    S: LinearSolver,
>(score: ShapeAwareEnvelopeScore<L, K, V, B, P, D, S>) -> bool {
    forall|fit: GaussianInnerFit<S>, family: Family<L, K, V>, c: FrozenBetaCtx, b: Matrix| #[trigger]
        score.block_read::<F>(fit, family, c, Some(b)) ==> symmetric(b@)
}

proof fn lemma_differences_symmetric<F: Arithmetic>(
    d: nat,
    up: Seq<Vec<Double>>,
    down: Seq<Vec<Double>>,
    eps: spec_fn(int) -> Double,
)
    ensures
        symmetric(differences_of::<F>(d, up, down, eps)),
{
}

proof fn lemma_bordered_symmetric<F: Arithmetic>(
    m: nat,
    d: nat,
    block: Seq<Seq<Double>>,
    up: Seq<Vec<Double>>,
    down: Seq<Vec<Double>>,
    eps: Double,
)
    requires
        m <= d,
        block.len() == m,
        symmetric(block),
    ensures
        symmetric(bordered_of::<F>(m, d, block, up, down, eps)),
{
    let h = bordered_of::<F>(m, d, block, up, down, eps);
    assert forall|i: int, j: int| 0 <= i < h.len() && 0 <= j < h.len() implies #[trigger] h[i][j]
        == h[j][i] by {
        if i < m && j < m {
            assert(block[i][j] == block[j][i]);
        }
    }
}

proof fn lemma_ift_symmetric<
    F: Arithmetic,
    L: ShapeLoss<K, V>,
    K: Link,
    V: VarianceFn,
    B: ShapeInnerBuilder<F, D, S, L, K, V>,
    P: Profile<F, L>,
    D: DenseBackend,
    S: LinearSolver,
>(
    score: ShapeAwareEnvelopeScore<L, K, V, B, P, D, S>,
    theta: Seq<Double>,
    fit: GaussianInnerFit<S>,
    family: Family<L, K, V>,
    c: FrozenBetaCtx,
    h: Seq<Seq<Double>>,
)
    requires
        theta.len() == score.axes(),
        score.ift_hessian::<F>(theta, fit, family, c, h),
    ensures
        symmetric(h),
{
    let (block, up, down) = choose|
        block: Seq<Seq<Double>>,
        up: Seq<Vec<Double>>,
        down: Seq<Vec<Double>>,
    |
        score.rho_block_there::<F>(theta, fit, family, block) && score.frozen_sides::<F>(
            theta,
            fit,
            c,
            true,
            score.n_shape as nat,
            up,
        ) && score.frozen_sides::<F>(theta, fit, c, false, score.n_shape as nat, down) && h
            == #[trigger] bordered_of::<F>(
            score.terms(),
            score.axes(),
            block,
            up,
            down,
            lit(E_M4),
        );
    let sigma2 = choose|sigma2: Double|
        score.phi_read::<F>(
            fit,
            family,
            score.bsb_total_of::<F>(score.rho_of(theta), fit.beta@),
            one(),
            sigma2,
        ) && #[trigger] score.rho_block::<F>(fit, family, score.rho_of(theta), sigma2, block);
    let (q, lambda) = choose|q: RhoHessInputs, lambda: Vec<Double>|
        lambda@ == lambdas_of::<F>(score.rho_of(theta)) && #[trigger] score.rho_inputs_read::<F>(
            fit,
            family,
            score.rho_of(theta),
            q,
        ) && block == #[trigger] score.rho_ctx(&fit, &q, &lambda, sigma2).hessian::<F>();
    assert(symmetric(block));
    assert(block.len() == score.terms());
    lemma_bordered_symmetric::<F>(
        score.terms(),
        score.axes(),
        block,
        up,
        down,
        lit(E_M4),
    );
}

proof fn lemma_plain_symmetric<
    F: Arithmetic,
    L: ShapeLoss<K, V>,
    K: Link,
    V: VarianceFn,
    B: ShapeInnerBuilder<F, D, S, L, K, V>,
    P: Profile<F, L>,
    D: DenseBackend,
    S: LinearSolver,
>(
    score: ShapeAwareEnvelopeScore<L, K, V, B, P, D, S>,
    theta: Seq<Double>,
    fit: GaussianInnerFit<S>,
    family: Family<L, K, V>,
    c: FrozenBetaCtx,
    h: Seq<Seq<Double>>,
    before: ObservedPdCounts,
    after: ObservedPdCounts,
)
    requires
        theta.len() == score.axes(),
        score.plain_hessian::<F>(theta, fit, family, c, h, before, after),
    ensures
        symmetric(h),
{
    if score.frozen_hessian::<F>(theta, fit, c, h, before, after) {
        let (up, down) = choose|up: Seq<Vec<Double>>, down: Seq<Vec<Double>>| #[trigger]
            score.side_gradients::<F>(theta, fit, c, score.axes(), up, down, before, after) && h
                == differences_of::<F>(score.axes(), up, down, |i: int| score.frozen_eps(i));
        lemma_differences_symmetric::<F>(score.axes(), up, down, |i: int| score.frozen_eps(i));
    } else if score.value_hessian::<F>(theta, h, before, after) {
        assert(symmetric(h));
    } else if score.ift_hessian::<F>(theta, fit, family, c, h) {
        lemma_ift_symmetric::<F, L, K, V, B, P, D, S>(score, theta, fit, family, c, h);
    } else {
        assert(score.open_hessian::<F>(theta, fit, family, c, h, before, after));
    }
}

/// The joint Hessian at a fit is symmetric, whichever way it is taken, where the
/// family's own block is.
pub proof fn law_joint_hessian_is_symmetric<
    F: Arithmetic,
    L: ShapeLoss<K, V>,
    K: Link,
    V: VarianceFn,
    B: ShapeInnerBuilder<F, D, S, L, K, V>,
    P: Profile<F, L>,
    D: DenseBackend,
    S: LinearSolver,
>(
    score: ShapeAwareEnvelopeScore<L, K, V, B, P, D, S>,
    before: ScoreMemory<AcceptedState>,
    theta: Seq<Double>,
    ev: Evaluation,
    after: ScoreMemory<AcceptedState>,
)
    requires
        theta.len() == score.axes(),
        score.n_shape > 0 ==> blocks_symmetric::<F, L, K, V, B, P, D, S>(score),
        ScoreDerivatives::<F>::evaluates(&score, before, theta, Ok::<Evaluation, GamrsError>(ev), after),
    ensures
        symmetric(ev.hess@),
{
    let (fit, family, c, t, u) = choose|
        fit: GaussianInnerFit<S>,
        family: Family<L, K, V>,
        c: FrozenBetaCtx,
        t: ObservedPdCounts,
        u: ObservedPdCounts,
    |
        score.fitted_at::<F>(theta, fit, family) && score.scores_counted::<F>(
            fit,
            family,
            score.rho_of(theta),
            ev.value,
            before.observed,
            t,
        ) && #[trigger] score.grad_there::<F>(theta, fit, family, None, c, ev.grad@, t, u)
            && score.joint_hessian::<F>(theta, fit, family, c, ev.hess@, u, after.observed);
    let plain = choose|plain: Seq<Seq<Double>>| #[trigger]
        score.plain_hessian::<F>(theta, fit, family, c, plain, u, after.observed) && if score.n_shape
            == 0 {
            ev.hess@ == plain
        } else {
            exists|b: Option<Matrix>| #[trigger]
                score.block_read::<F>(fit, family, c, b) && match b {
                    Some(block) => block.square(score.n_shape as nat) && ev.hess@
                        == with_block_of(
                        plain,
                        score.terms(),
                        block@,
                    ),
                    None => ev.hess@ == plain,
                }
        };
    lemma_plain_symmetric::<F, L, K, V, B, P, D, S>(
        score,
        theta,
        fit,
        family,
        c,
        plain,
        u,
        after.observed,
    );
}

} // verus!
