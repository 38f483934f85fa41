//! The score's gradient along the log smoothing parameters, where shape
//! parameters are about.

use vstd::prelude::*;

use crate::arith::{lawful, minus, over, plus, times, total, total_from, whole, Arithmetic};
use crate::dense::{dot, dot_of, mat_vec, mat_vec_of, sum_onto, sum_over, times_vec, times_vec_of};
use crate::double::{half, one, two, zero, Double};
use crate::error::GamrsError;
use crate::inner::linalg::{solved, LinearSolver};
use crate::inner::penalties_fit;
use crate::inner::GaussianInnerFit;
use crate::matrix::{fill_vec, grid, Matrix};
use crate::score::envelope::{lambdas_of, misfit, weight_chain, weight_chain_of};
use crate::score::hess_ift::{mirror, mirrored, s_beta_of};
use crate::score::shape_aware::builder::ShapeInnerBuilder;
use crate::score::shape_aware::level2::Level1ShapeDerivs;
use crate::score::shape_aware::score::{
    adjusted_rank, adjusted_rank_of, lambdas, ShapeAwareEnvelopeScore,
};
use crate::traits::{
    checked_solve, is_square, solve_answered, DenseBackend, Family, Link, ShapeLoss, VarianceFn,
};

verus! {

/// The diagonal of `X'WX + sum_j lambda_j S_j`.
pub open spec fn penalised_diag_of<F: Arithmetic>(
    x: Seq<Seq<Double>>,
    p: nat,
    w: Seq<Double>,
    s_list: Seq<Matrix>,
    lambda: Seq<Double>,
) -> Seq<Double> {
    Seq::new(
        p,
        |c: int|
            total_from::<F>(
                total::<F>(|i: int| times::<F>(times::<F>(x[i][c], x[i][c]), w[i]), x.len()),
                |j: int| times::<F>(lambda[j], s_list[j]@[c][c]),
                lambda.len(),
            ),
    )
}

/// The diagonal of `X'WX + sum_j lambda_j S_j`.
pub fn penalised_diag<F: Arithmetic>(x: &Matrix, w: &Vec<Double>, s_list: &Vec<Matrix>, lambda: &Vec<Double>) -> (r: Vec<
    Double,
>)
    requires
        lawful::<F>(),
        x.shape(w@.len(), x.cols as nat),
        penalties_fit(s_list@, x.cols as nat),
        lambda@.len() == s_list@.len(),
    ensures
        r@ == penalised_diag_of::<F>(x@, x.cols as nat, w@, s_list@, lambda@),
{
    let p: usize = x.cols;
    let entry = |c: usize| -> (v: Double)
        requires
            c < p,
        ensures
            v == penalised_diag_of::<F>(x@, x.cols as nat, w@, s_list@, lambda@)[c as int],
        {
            let row = |i: usize| -> (t: Double)
                requires
                    i < w@.len(),
                ensures
                    t == times::<F>(
                        times::<F>(x@[i as int][c as int], x@[i as int][c as int]),
                        w@[i as int],
                    ),
                { times::<F>(times::<F>(x.get(i, c), x.get(i, c)), w[i]) };
            let data: Double = sum_over::<F, _>(
                w.len(),
                row,
                Ghost(
                    |i: int| times::<F>(times::<F>(x@[i][c as int], x@[i][c as int]), w@[i]),
                ),
            );
            let pen = |j: usize| -> (t: Double)
                requires
                    j < lambda@.len(),
                ensures
                    t == times::<F>(lambda@[j as int], s_list@[j as int]@[c as int][c as int]),
                {
                    assert(s_list@[j as int].square(x.cols as nat));
                    times::<F>(lambda[j], s_list[j].get(c, c))
                };
            sum_onto::<F, _>(
                data,
                lambda.len(),
                pen,
                Ghost(|j: int| times::<F>(lambda@[j], s_list@[j]@[c as int][c as int])),
            )
        };
    let r: Vec<Double> = fill_vec(p, entry);
    assert(r@ =~= penalised_diag_of::<F>(x@, x.cols as nat, w@, s_list@, lambda@));
    r
}

/// The first of the first `n` entries with the largest absolute value.
pub open spec fn first_largest_upto(d: Seq<Double>, n: nat) -> int
    decreases n,
{
    if n <= 1 {
        0
    } else {
        let b = first_largest_upto(d, (n - 1) as nat);
        if d[b].abs_spec().below(d[n - 1].abs_spec()) {
            n - 1
        } else {
            b
        }
    }
}

/// The first entry with the largest absolute value.
pub fn first_largest(d: &Vec<Double>) -> (r: usize)
    requires
        d@.len() > 0,
    ensures
        r == first_largest_upto(d@, d@.len()),
        r < d@.len(),
{
    let mut best: usize = 0;
    for c in 1..d.len()
        invariant
            best == first_largest_upto(d@, c as nat),
            best < c <= d@.len(),
    {
        if d[best].abs().lt(d[c].abs()) {
            best = c;
        }
    }
    best
}

/// No entry is larger in absolute value, and those before it are smaller.
pub proof fn law_first_largest(d: Seq<Double>, n: nat)
    requires
        0 < n <= d.len(),
        forall|i: int| 0 <= i < n ==> !(#[trigger] d[i]).nan(),
    ensures
        0 <= first_largest_upto(d, n) < n,
        forall|i: int|
            0 <= i < n ==> (#[trigger] d[i]).abs_spec().at_most(d[first_largest_upto(d, n)].abs_spec()),
        forall|i: int|
            0 <= i < first_largest_upto(d, n) ==> (#[trigger] d[i]).abs_spec().below(
                d[first_largest_upto(d, n)].abs_spec(),
            ),
    decreases n,
{
    if n > 1 {
        law_first_largest(d, (n - 1) as nat);
    }
}

/// `X' diag(w) X + sum_j lambda_j S_j` with weights of either sign.
pub open spec fn observed_system_of<F: Arithmetic>(
    x: Seq<Seq<Double>>,
    p: nat,
    w: Seq<Double>,
    s_list: Seq<Matrix>,
    lambda: Seq<Double>,
) -> Seq<Seq<Double>> {
    let data = mirrored(
        p,
        |c: int, d: int|
            total::<F>(|i: int| times::<F>(times::<F>(x[i][c], x[i][d]), w[i]), x.len()),
    );
    grid(
        p,
        p,
        |c: int, d: int|
            total_from::<F>(
                data[c][d],
                |j: int| times::<F>(lambda[j], s_list[j]@[c][d]),
                lambda.len(),
            ),
    )
}

/// `X' diag(w) X + sum_j lambda_j S_j` with weights of either sign.
pub fn observed_system<F: Arithmetic>(x: &Matrix, w: &Vec<Double>, s_list: &Vec<Matrix>, lambda: &Vec<Double>) -> (r: Matrix)
    requires
        lawful::<F>(),
        x.shape(w@.len(), x.cols as nat),
        penalties_fit(s_list@, x.cols as nat),
        lambda@.len() == s_list@.len(),
    ensures
        r.square(x.cols as nat),
        r@ == observed_system_of::<F>(x@, x.cols as nat, w@, s_list@, lambda@),
{
    let p: usize = x.cols;
    let product = |c: usize, d: usize| -> (v: Double)
        requires
            c <= d < p,
        ensures
            v == total::<F>(
                |i: int| times::<F>(times::<F>(x@[i][c as int], x@[i][d as int]), w@[i]),
                x@.len(),
            ),
        {
            let row = |i: usize| -> (t: Double)
                requires
                    i < w@.len(),
                ensures
                    t == times::<F>(
                        times::<F>(x@[i as int][c as int], x@[i as int][d as int]),
                        w@[i as int],
                    ),
                { times::<F>(times::<F>(x.get(i, c), x.get(i, d)), w[i]) };
            sum_over::<F, _>(
                w.len(),
                row,
                Ghost(|i: int| times::<F>(times::<F>(x@[i][c as int], x@[i][d as int]), w@[i])),
            )
        };
    let data: Matrix = mirror(
        p,
        product,
        Ghost(
            |c: int, d: int|
                total::<F>(
                    |i: int| times::<F>(times::<F>(x@[i][c], x@[i][d]), w@[i]),
                    x@.len(),
                ),
        ),
    );
    let entry = |c: usize, d: usize| -> (v: Double)
        requires
            c < p,
            d < p,
        ensures
            v == total_from::<F>(
                data@[c as int][d as int],
                |j: int| times::<F>(lambda@[j], s_list@[j]@[c as int][d as int]),
                lambda@.len(),
            ),
        {
            let pen = |j: usize| -> (t: Double)
                requires
                    j < lambda@.len(),
                ensures
                    t == times::<F>(lambda@[j as int], s_list@[j as int]@[c as int][d as int]),
                {
                    assert(s_list@[j as int].square(x.cols as nat));
                    times::<F>(lambda[j], s_list[j].get(c, d))
                };
            sum_onto::<F, _>(
                data.get(c, d),
                lambda.len(),
                pen,
                Ghost(|j: int| times::<F>(lambda@[j], s_list@[j]@[c as int][d as int])),
            )
        };
    let r: Matrix = Matrix::fill(p, p, entry);
    proof {
        r.lemma_is_grid(
            p as nat,
            p as nat,
            |c: int, d: int|
                total_from::<F>(
                    data@[c][d],
                    |j: int| times::<F>(lambda@[j], s_list@[j]@[c][d]),
                    lambda@.len(),
                ),
        );
    }
    r
}

/// `x_i' A x_i` of each row.
pub open spec fn row_leverage_of<F: Arithmetic>(x: Seq<Seq<Double>>, a: Seq<Seq<Double>>) -> Seq<Double> {
    Seq::new(x.len(), |i: int| dot_of::<F>(x[i], mat_vec_of::<F>(a, x[i])))
}

/// `x_i' A x_i` of each row.
pub fn row_leverage<F: Arithmetic>(x: &Matrix, a: &Matrix) -> (r: Vec<Double>)
    requires
        lawful::<F>(),
        x.shape(x@.len(), a@.len()),
        a.square(a@.len()),
    ensures
        r@ == row_leverage_of::<F>(x@, a@),
{
    let entry = |i: usize| -> (v: Double)
        requires
            i < x@.len(),
        ensures
            v == dot_of::<F>(x@[i as int], mat_vec_of::<F>(a@, x@[i as int])),
        {
            let ax: Vec<Double> = mat_vec::<F>(a, &x.rows[i]);
            dot::<F>(&x.rows[i], &ax)
        };
    let r: Vec<Double> = fill_vec(x.rows.len(), entry);
    assert(r@ =~= row_leverage_of::<F>(x@, a@));
    r
}

/// The parts of the gradient along one log smoothing parameter.
#[derive(Clone, Copy, Debug, PartialEq, Eq, Structural)]
pub struct RhoSlope {
    /// Smoothing parameter.
    pub lambda: Double,
    /// Quadratic penalty.
    pub bsb: Double,
    /// `tr(A^-1 S)`.
    pub tr: Double,
    /// Derivative of the solver's ridge.
    pub d_ridge: Double,
    /// `tr(A^-1)`.
    pub tr_h_inv: Double,
    /// Change of the weights.
    pub tk_kkt: Double,
    /// Adjusted rank.
    pub rank: i64,
}

/// `l b'Sb / (2 phi) + l tr / 2 + d_ridge tr_h_inv / 2 + tk / 2 - rank / 2`.
pub open spec fn rho_slope_of<F: Arithmetic>(s: RhoSlope, phi: Double) -> Double {
    minus::<F>(
        plus::<F>(
            plus::<F>(
                plus::<F>(
                    over::<F>(times::<F>(s.lambda, s.bsb), times::<F>(two(), phi)),
                    times::<F>(times::<F>(half(), s.lambda), s.tr),
                ),
                times::<F>(times::<F>(half(), s.d_ridge), s.tr_h_inv),
            ),
            times::<F>(half(), s.tk_kkt),
        ),
        times::<F>(half(), whole::<F>(s.rank)),
    )
}

/// The gradient along one log smoothing parameter from its parts.
pub fn rho_slope<F: Arithmetic>(s: RhoSlope, phi: Double) -> (r: Double)
    requires
        lawful::<F>(),
    ensures
        r == rho_slope_of::<F>(s, phi),
{
    let fit_part: Double = over::<F>(times::<F>(s.lambda, s.bsb), times::<F>(two(), phi));
    let trace_part: Double = times::<F>(times::<F>(half(), s.lambda), s.tr);
    let ridge_part: Double = times::<F>(times::<F>(half(), s.d_ridge), s.tr_h_inv);
    let chain_part: Double = times::<F>(half(), s.tk_kkt);
    let rank_part: Double = times::<F>(half(), whole::<F>(s.rank));
    minus::<F>(
        plus::<F>(plus::<F>(plus::<F>(fit_part, trace_part), ridge_part), chain_part),
        rank_part,
    )
}

/// What the change of the weights is computed from.
pub struct ChainReading {
    /// Derivative of each weight along the mean.
    pub dw_dmu: Vec<Double>,
    /// `A^-1`.
    pub a_inv: Matrix,
    /// Derivative of the coefficients along each parameter.
    pub dbeta: Seq<Seq<Double>>,
}

/// What was read about a fit for the gradient along the log smoothing
/// parameters.
pub struct RhoReading {
    /// Rank adjustment.
    pub adj: i32,
    /// `tr(A^-1)`; zero where the solver has no ridge.
    pub tr_h_inv: Double,
    /// The change of the weights, where the family has one.
    pub chain: Option<ChainReading>,
}

/// The identity.
pub open spec fn identity_of(p: nat) -> Seq<Seq<Double>> {
    grid(
        p,
        p,
        |i: int, j: int|
            if i == j {
                one()
            } else {
                zero()
            },
    )
}

/// The identity.
pub fn identity(p: usize) -> (m: Matrix)
    ensures
        m.square(p as nat),
        m@ == identity_of(p as nat),
{
    let entry = |i: usize, j: usize| -> (v: Double)
        ensures
            v == (if i == j {
                one()
            } else {
                zero()
            }),
        {
            if i == j {
                one()
            } else {
                zero()
            }
        };
    let m: Matrix = Matrix::fill(p, p, entry);
    proof {
        m.lemma_is_grid(
            p as nat,
            p as nat,
            |i: int, j: int|
                if i == j {
                    one()
                } else {
                    zero()
                },
        );
    }
    m
}

/// A double that equals zero as a number.
pub open spec fn nought(x: Double) -> bool {
    x.at_most(zero()) && zero().at_most(x)
}

impl<L: ShapeLoss<K, V>, K: Link, V: VarianceFn, B, P, D: DenseBackend, S: LinearSolver> ShapeAwareEnvelopeScore<
    L,
    K,
    V,
    B,
    P,
    D,
    S,
> {
    /// The trace that goes with the solver's ridge.
    pub open spec fn ridge_read<F: Arithmetic>(&self, fit: GaussianInnerFit<S>, tr: Double) -> bool where
        B: ShapeInnerBuilder<F, D, S, L, K, V>,
     {
        if nought(B::ridge(self.data.s_list.len())) {
            tr == zero()
        } else {
            exists|eye: Matrix|
                eye@ == identity_of(self.data.x_design.cols as nat) && eye.square(
                    self.data.x_design.cols as nat,
                ) && #[trigger] call_ensures(
                    S::trace_a_inv,
                    (&fit.a_factor, &eye),
                    tr,
                )
        }
    }

    /// The coefficient that the solver's ridge is taken from.
    pub open spec fn ridge_axis<F: Arithmetic>(&self, fit: GaussianInnerFit<S>, lambda: Seq<Double>) -> int where
        B: ShapeInnerBuilder<F, D, S, L, K, V>,
     {
        let p = self.data.x_design.cols as nat;
        if nought(B::ridge(self.data.s_list.len())) {
            0
        } else {
            first_largest_upto(
                penalised_diag_of::<F>(
                    self.data.x_design@,
                    p,
                    fit.working_weights@,
                    self.data.s_list@,
                    lambda,
                ),
                p,
            )
        }
    }

    /// The derivative of each weight along the mean: the family's own, else half
    /// the third derivative of the deviance, else none.
    pub open spec fn weight_slopes_read<F: Arithmetic>(
        &self,
        family: Family<L, K, V>,
        eta: Vec<Double>,
        dw: Option<Vec<Double>>,
    ) -> bool {
        exists|prior: Vec<Double>, own: Option<(Matrix, Vec<Double>)>|
            prior@ == self.prior() && #[trigger] call_ensures(
                <L as ShapeLoss<K, V>>::ift_trace_weight_derivs,
                (&family.loss, &self.data.y, &eta, &prior),
                own,
            ) && match own {
                Some(o) => dw == Some(o.1),
                None => exists|l1: Option<Level1ShapeDerivs>| #[trigger]
                    call_ensures(
                        <L as ShapeLoss<K, V>>::level1_shape_derivatives,
                        (&family.loss, &self.data.y, &eta, &prior),
                        l1,
                    ) && match l1 {
                        Some(l) => dw matches Some(d) && d@ == times_vec_of::<F>(half(), l.dmu3@),
                        None => dw is None,
                    },
            }
    }

    /// `-lambda_j S_j b`.
    pub open spec fn drho_rhs<F: Arithmetic>(&self, beta: Seq<Double>, lambda: Seq<Double>, j: int) -> Seq<Double> {
        times_vec_of::<F>(
            lambda[j].neg_spec(),
            s_beta_of::<F>(self.data.s_list@, beta, j),
        )
    }

    /// The derivative of the coefficients along parameter `j`: solved with the
    /// observed curvature where the family has it and it can be solved, else with
    /// the fit's own factor.
    pub open spec fn dbeta_read<F: Arithmetic>(
        &self,
        family: Family<L, K, V>,
        fit: GaussianInnerFit<S>,
        lambda: Seq<Double>,
        j: int,
        b: Seq<Double>,
    ) -> bool {
        let rhs = self.drho_rhs::<F>(fit.beta@, lambda, j);
        exists|prior: Vec<Double>, w: Option<Vec<Double>>|
            prior@ == self.prior() && #[trigger] call_ensures(
                L::observed_curvature_weights,
                (&family.loss, &self.data.y, &fit.eta, &prior),
                w,
            ) && match w {
                Some(v) => exists|x: Option<Seq<Double>>| #[trigger]
                    solve_answered::<D>(
                        observed_system_of::<F>(
                            self.data.x_design@,
                            self.data.x_design.cols as nat,
                            v@,
                            self.data.s_list@,
                            lambda,
                        ),
                        rhs,
                        x,
                    ) && match x {
                        Some(s) => b == s,
                        None => solved::<S>(fit.a_factor, rhs, b),
                    },
                None => solved::<S>(fit.a_factor, rhs, b),
            }
    }

    /// What was read about a fit.
    pub open spec fn rho_read<F: Arithmetic>(
        &self,
        fit: GaussianInnerFit<S>,
        family: Family<L, K, V>,
        lambda: Seq<Double>,
        q: RhoReading,
    ) -> bool where B: ShapeInnerBuilder<F, D, S, L, K, V> {
        &&& call_ensures(<L as ShapeLoss<K, V>>::score_rank_adjustment, (&family.loss,), q.adj)
        &&& self.ridge_read::<F>(fit, q.tr_h_inv)
        &&& match q.chain {
            Some(c) => {
                &&& self.weight_slopes_read::<F>(family, fit.eta, Some(c.dw_dmu))
                &&& call_ensures(S::invert, (&fit.a_factor,), c.a_inv)
                &&& c.dbeta.len() == self.terms()
                &&& forall|j: int|
                    0 <= j < self.terms() ==> self.dbeta_read::<F>(
                        family,
                        fit,
                        lambda,
                        j,
                        #[trigger] c.dbeta[j],
                    )
            },
            None => self.weight_slopes_read::<F>(family, fit.eta, None),
        }
    }

    /// The change of the weights along parameter `j`.
    pub open spec fn tk_kkt_of<F: Arithmetic>(&self, c: Option<ChainReading>, j: int) -> Double {
        match c {
            Some(r) => weight_chain_of::<F>(
                r.dw_dmu@,
                mat_vec_of::<F>(self.data.x_design@, r.dbeta[j]),
                row_leverage_of::<F>(self.data.x_design@, r.a_inv@),
            ),
            None => zero(),
        }
    }

    /// The gradient at a reading.
    pub open spec fn rho_gradient_at<F: Arithmetic>(
        &self,
        fit: GaussianInnerFit<S>,
        lambda: Seq<Double>,
        bsb: Seq<Double>,
        tr: Seq<Double>,
        phi: Double,
        q: RhoReading,
    ) -> Seq<Double> where B: ShapeInnerBuilder<F, D, S, L, K, V> {
        let a = self.ridge_axis::<F>(fit, lambda);
        Seq::new(
            self.terms(),
            |j: int|
                rho_slope_of::<F>(
                    RhoSlope {
                        lambda: lambda[j],
                        bsb: bsb[j],
                        tr: tr[j],
                        d_ridge: times::<F>(
                            times::<F>(B::ridge(self.data.s_list.len()), lambda[j]),
                            self.data.s_list@[j]@[a][a],
                        ),
                        tr_h_inv: q.tr_h_inv,
                        tk_kkt: self.tk_kkt_of::<F>(q.chain, j),
                        rank: adjusted_rank_of(self.rank_s_list@[j], q.adj) as i64,
                    },
                    phi,
                ),
        )
    }

    /// The gradient along the log smoothing parameters, for some reading of the
    /// fit.
    pub open spec fn rho_gradient<F: Arithmetic>(
        &self,
        fit: GaussianInnerFit<S>,
        family: Family<L, K, V>,
        rho: Seq<Double>,
        bsb: Seq<Double>,
        tr: Seq<Double>,
        phi: Double,
        g: Seq<Double>,
    ) -> bool where B: ShapeInnerBuilder<F, D, S, L, K, V> {
        exists|q: RhoReading| #[trigger]
            self.rho_read::<F>(fit, family, lambdas_of::<F>(rho), q) && g == self.rho_gradient_at::<F>(
                fit,
                lambdas_of::<F>(rho),
                bsb,
                tr,
                phi,
                q,
            )
    }

    /// Something that was answered about a fit has the wrong size.
    pub open spec fn rho_misread<F: Arithmetic>(
        &self,
        fit: GaussianInnerFit<S>,
        family: Family<L, K, V>,
        rho: Seq<Double>,
    ) -> bool {
        let n = self.data.y@.len();
        let p = self.data.x_design.cols as nat;
        ||| exists|dw: Vec<Double>| #[trigger]
            self.weight_slopes_read::<F>(family, fit.eta, Some(dw)) && dw@.len() != n
        ||| exists|a_inv: Matrix| #[trigger]
            call_ensures(S::invert, (&fit.a_factor,), a_inv) && !a_inv.square(p)
        ||| exists|prior: Vec<Double>, w: Vec<Double>|
            prior@ == self.prior() && w@.len() != n && #[trigger] call_ensures(
                L::observed_curvature_weights,
                (&family.loss, &self.data.y, &fit.eta, &prior),
                Some(w),
            )
        ||| exists|j: int, b: Seq<Double>|
            0 <= j < self.terms() && b.len() != p && #[trigger] self.dbeta_read::<F>(
                family,
                fit,
                lambdas_of::<F>(rho),
                j,
                b,
            )
    }

    fn weight_slopes<F: Arithmetic>(&self, family: &Family<L, K, V>, eta: &Vec<Double>) -> (dw: Option<Vec<Double>>)
        requires
            lawful::<F>(),
            self.wf(),
        ensures
            self.weight_slopes_read::<F>(*family, *eta, dw),
    {
        let prior: Vec<Double> = self.prior_weights();
        let own: Option<(Matrix, Vec<Double>)> = family.loss.ift_trace_weight_derivs(
            &self.data.y,
            eta,
            &prior,
        );
        match own {
            Some(o) => Some(o.1),
            None => {
                let l1: Option<Level1ShapeDerivs> = family.loss.level1_shape_derivatives(
                    &self.data.y,
                    eta,
                    &prior,
                );
                match l1 {
                    Some(l) => Some(times_vec::<F>(half(), &l.dmu3)),
                    None => None,
                }
            },
        }
    }

    /// The change of the weights along every parameter, or that something has the
    /// wrong size.
    fn chain<F: Arithmetic>(
        &self,
        fit: &GaussianInnerFit<S>,
        family: &Family<L, K, V>,
        rho: &Vec<Double>,
        lambda: &Vec<Double>,
        dw_dmu: Vec<Double>,
    ) -> (r: Result<(Vec<Double>, Ghost<ChainReading>), GamrsError>)
        requires
            lawful::<F>(),
            self.wf(),
            self.sized(*fit),
            rho@.len() == self.terms(),
            lambda@ == lambdas_of::<F>(rho@),
            self.weight_slopes_read::<F>(*family, fit.eta, Some(dw_dmu)),
        ensures
            match r {
                Ok(out) => {
                    let c = out.1@;
                    &&& c.dw_dmu == dw_dmu
                    &&& call_ensures(S::invert, (&fit.a_factor,), c.a_inv)
                    &&& c.dbeta.len() == self.terms()
                    &&& forall|j: int|
                        0 <= j < self.terms() ==> self.dbeta_read::<F>(
                            *family,
                            *fit,
                            lambda@,
                            j,
                            #[trigger] c.dbeta[j],
                        )
                    &&& out.0@ == Seq::new(self.terms(), |j: int| self.tk_kkt_of::<F>(Some(c), j))
                },
                Err(e) => misfit(e) && self.rho_misread::<F>(*fit, *family, rho@),
            },
    {
        let m: usize = self.data.s_list.len();
        let n: usize = self.data.y.len();
        let p: usize = self.data.x_design.cols;
        if dw_dmu.len() != n {
            return Err(GamrsError::InvalidParameter("fit has the wrong size".to_owned()));
        }
        let a_inv: Matrix = fit.a_inv();
        if !is_square(&a_inv, p) {
            return Err(GamrsError::InvalidParameter("fit has the wrong size".to_owned()));
        }
        let h_diag: Vec<Double> = row_leverage::<F>(&self.data.x_design, &a_inv);
        let prior: Vec<Double> = self.prior_weights();
        let w_obs: Option<Vec<Double>> = family.loss.observed_curvature_weights(
            &self.data.y,
            &fit.eta,
            &prior,
        );
        if let Some(w) = &w_obs {
            if w.len() != n {
                return Err(GamrsError::InvalidParameter("fit has the wrong size".to_owned()));
            }
        }
        let system: Option<Matrix> = match &w_obs {
            Some(w) => Some(observed_system::<F>(&self.data.x_design, w, &self.data.s_list, lambda)),
            None => None,
        };
        let mut tk: Vec<Double> = Vec::new();
        let ghost mut dbeta: Seq<Seq<Double>> = Seq::empty();
        for j in 0..m
            invariant
                lawful::<F>(),
                self.wf(),
                self.sized(*fit),
                m == self.terms(),
                n == self.data.y@.len(),
                p == self.data.x_design.cols,
                rho@.len() == m,
                lambda@ == lambdas_of::<F>(rho@),
                lambda@.len() == m,
                dw_dmu@.len() == n,
                a_inv.square(p as nat),
                h_diag@ == row_leverage_of::<F>(self.data.x_design@, a_inv@),
                h_diag@.len() == n,
                prior@ == self.prior(),
                call_ensures(
                    L::observed_curvature_weights,
                    (&family.loss, &self.data.y, &fit.eta, &prior),
                    w_obs,
                ),
                match w_obs {
                    Some(w) => system matches Some(h) && h@ == observed_system_of::<F>(
                        self.data.x_design@,
                        p as nat,
                        w@,
                        self.data.s_list@,
                        lambda@,
                    ) && h.square(p as nat),
                    None => system is None,
                },
                tk@.len() == j,
                dbeta.len() == j,
                forall|k: int|
                    0 <= k < j ==> self.dbeta_read::<F>(*family, *fit, lambda@, k, #[trigger] dbeta[k]),
                forall|k: int|
                    0 <= k < j ==> #[trigger] tk@[k] == weight_chain_of::<F>(
                        dw_dmu@,
                        mat_vec_of::<F>(self.data.x_design@, dbeta[k]),
                        h_diag@,
                    ),
        {
            assert(self.data.s_list@[j as int].square(p as nat));
            let sb: Vec<Double> = mat_vec::<F>(&self.data.s_list[j], &fit.beta);
            let rhs: Vec<Double> = times_vec::<F>(lambda[j].neg(), &sb);
            assert(rhs@ == self.drho_rhs::<F>(fit.beta@, lambda@, j as int));
            let b: Vec<Double> = match &system {
                Some(h) => {
                    let x: Option<Vec<Double>> = checked_solve::<D>(h, &rhs);
                    match x {
                        Some(s) => {
                            assert(solve_answered::<D>(h@, rhs@, Some(s@)));
                            s
                        },
                        None => {
                            let s: Vec<Double> = fit.solve_a(&rhs);
                            assert(solved::<S>(fit.a_factor, rhs@, s@));
                            assert(solve_answered::<D>(h@, rhs@, None));
                            s
                        },
                    }
                },
                None => {
                    let s: Vec<Double> = fit.solve_a(&rhs);
                    assert(solved::<S>(fit.a_factor, rhs@, s@));
                    s
                },
            };
            assert(self.dbeta_read::<F>(*family, *fit, lambda@, j as int, b@));
            if b.len() != p {
                return Err(GamrsError::InvalidParameter("fit has the wrong size".to_owned()));
            }
            let eta1: Vec<Double> = mat_vec::<F>(&self.data.x_design, &b);
            tk.push(weight_chain::<F>(&dw_dmu, &eta1, &h_diag));
            proof {
                dbeta = dbeta.push(b@);
            }
        }
        let ghost c = ChainReading { dw_dmu, a_inv, dbeta };
        assert(tk@ =~= Seq::new(self.terms(), |j: int| self.tk_kkt_of::<F>(Some(c), j)));
        Ok((tk, Ghost(c)))
    }

    /// The gradient along the log smoothing parameters at a fit.
    pub fn compute_rho_envelope_gradient<F: Arithmetic>(
        &self,
        fit: &GaussianInnerFit<S>,
        family: &Family<L, K, V>,
        rho: &Vec<Double>,
        bsb_per_term: &Vec<Double>,
        tr_hinv_s_per_term: &Vec<Double>,
        phi: Double,
    ) -> (r: Result<Vec<Double>, GamrsError>) where B: ShapeInnerBuilder<F, D, S, L, K, V>
        requires
            lawful::<F>(),
            self.wf(),
            self.sized(*fit),
            rho@.len() == self.terms(),
            bsb_per_term@.len() == self.terms(),
            tr_hinv_s_per_term@.len() == self.terms(),
        ensures
            match r {
                Ok(g) => self.rho_gradient::<F>(
                    *fit,
                    *family,
                    rho@,
                    bsb_per_term@,
                    tr_hinv_s_per_term@,
                    phi,
                    g@,
                ) && g@.len() == self.terms(),
                Err(e) => misfit(e) && self.rho_misread::<F>(*fit, *family, rho@),
            },
    {
        let m: usize = self.data.s_list.len();
        let p: usize = self.data.x_design.cols;
        let adj: i32 = family.loss.score_rank_adjustment();
        let ridge: Double = self.inner_builder.score_ridge_scale(m);
        let lambda: Vec<Double> = lambdas::<F>(rho);
        let (axis, tr_h_inv) = if ridge.num_eq(zero()) {
            (0, zero())
        } else {
            let d: Vec<Double> = penalised_diag::<F>(
                &self.data.x_design,
                &fit.working_weights,
                &self.data.s_list,
                &lambda,
            );
            let i: usize = first_largest(&d);
            let eye: Matrix = identity(p);
            let t: Double = fit.trace_a_inv(&eye);
            (i, t)
        };
        assert(self.ridge_read::<F>(*fit, tr_h_inv));
        assert(axis == self.ridge_axis::<F>(*fit, lambda@));
        assert(axis < p);
        let dw: Option<Vec<Double>> = self.weight_slopes::<F>(family, &fit.eta);
        let ghost mut q = RhoReading { adj, tr_h_inv, chain: None };
        let tk: Vec<Double> = match dw {
            Some(d) => match self.chain::<F>(fit, family, rho, &lambda, d) {
                Ok(out) => {
                    proof {
                        q = RhoReading { adj, tr_h_inv, chain: Some(out.1@) };
                    }
                    out.0
                },
                Err(e) => return Err(e),
            },
            None => {
                let none = |j: usize| -> (v: Double)
                    ensures
                        v == zero(),
                    { zero() };
                let t: Vec<Double> = fill_vec(m, none);
                assert(t@ =~= Seq::new(self.terms(), |j: int| self.tk_kkt_of::<F>(None, j)));
                t
            },
        };
        assert(self.rho_read::<F>(*fit, *family, lambda@, q));
        let mut g: Vec<Double> = Vec::new();
        for j in 0..m
            invariant
                lawful::<F>(),
                self.wf(),
                m == self.terms(),
                p == self.data.x_design.cols,
                lambda@.len() == m,
                bsb_per_term@.len() == m,
                tr_hinv_s_per_term@.len() == m,
                tk@.len() == m,
                axis < p,
                axis == self.ridge_axis::<F>(*fit, lambda@),
                ridge == B::ridge(m),
                m == self.data.s_list.len(),
                q.adj == adj,
                q.tr_h_inv == tr_h_inv,
                forall|k: int| 0 <= k < m ==> #[trigger] tk@[k] == self.tk_kkt_of::<F>(q.chain, k),
                g@.len() == j,
                forall|k: int|
                    0 <= k < j ==> #[trigger] g@[k] == self.rho_gradient_at::<F>(
                        *fit,
                        lambda@,
                        bsb_per_term@,
                        tr_hinv_s_per_term@,
                        phi,
                        q,
                    )[k],
        {
            assert(self.data.s_list@[j as int].square(p as nat));
            let s: RhoSlope = RhoSlope {
                lambda: lambda[j],
                bsb: bsb_per_term[j],
                tr: tr_hinv_s_per_term[j],
                d_ridge: times::<F>(
                    times::<F>(ridge, lambda[j]),
                    self.data.s_list[j].get(axis, axis),
                ),
                tr_h_inv,
                tk_kkt: tk[j],
                rank: adjusted_rank(self.rank_s_list[j], adj),
            };
            g.push(rho_slope::<F>(s, phi));
        }
        assert(g@ =~= self.rho_gradient_at::<F>(
            *fit,
            lambda@,
            bsb_per_term@,
            tr_hinv_s_per_term@,
            phi,
            q,
        ));
        Ok(g)
    }
}

} // verus!
