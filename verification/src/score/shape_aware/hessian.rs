//! The joint Hessian over smoothing and shape parameters: which way it is taken,
//! and how each way puts it together.

use vstd::prelude::*;

use crate::arith::{lawful, minus, over, plus, times, Arithmetic};
use crate::dense::dot;
use crate::double::{half, lit, one, two, zero, Double, E_M300, E_M4, E_M5, FOUR};
use crate::error::GamrsError;
use crate::inner::linalg::LinearSolver;
use crate::inner::pirls::curvature::{counted_some, with_outcomes, ObservedPdCounts};
use crate::inner::pirls::{alpha_of, fisher_weight_of, read_row, row_read, RowShape};
use crate::inner::{GaussianInnerFit, TkKKTInputs};
use crate::matrix::{fill_vec, grid, Matrix};
use crate::score::envelope::{
    central, central_of, differences, differences_of, lambdas_of, misfit, shift, shifted,
};
use crate::score::hess_ift::{
    build_xtwx, build_xtwx_of, compute_dev_grad_beta_working_rss, dev_grad_of, hess_ift_rho, mirror,
    HessIftCtx,
};
use crate::score::profile::Profile;
use crate::score::shape_aware::builder::ShapeInnerBuilder;
use crate::score::shape_aware::gradient::FrozenBetaCtx;
use crate::score::shape_aware::level2::{
    law_number_of_pairs, number_of_pairs, pairs, Level1ShapeDerivs, Level2Ctx, Level2ShapeDerivs,
};
use crate::score::shape_aware::score::{head, lambdas, points_of, ShapeAwareEnvelopeScore};
use crate::score::shape_aware::shape_gradient::lv1_ok;
use crate::traits::{is_shape, is_square, DenseBackend, Family, Link, ShapeLoss, VarianceFn};

verus! {

broadcast use crate::inner::pirls::curvature::lemma_counted_transitive;

/// The second difference of the score along one axis:
/// `(up - 2 mid + down) / eps^2`.
pub open spec fn second_of<F: Arithmetic>(up: Double, mid: Double, down: Double, eps: Double) -> Double {
    over::<F>(
        plus::<F>(minus::<F>(up, times::<F>(two(), mid)), down),
        times::<F>(eps, eps),
    )
}

/// The mixed difference of the score along two axes:
/// `(pp - pm - mp + mm) / (4 eps^2)`.
pub open spec fn mixed_of<F: Arithmetic>(pp: Double, pm: Double, mp: Double, mm: Double, eps: Double) -> Double {
    over::<F>(
        plus::<F>(minus::<F>(minus::<F>(pp, pm), mp), mm),
        times::<F>(times::<F>(lit(FOUR), eps), eps),
    )
}

/// What the block of the log smoothing parameters is computed from.
pub struct RhoHessInputs {
    /// `A^-1`.
    pub a_inv: Matrix,
    /// `X'WX`.
    pub xtwx: Matrix,
    /// Derivative of the deviance along the coefficients.
    pub dev_grad: Vec<Double>,
}

/// The curvature ratio, or 1 where it is not positive and finite.
pub open spec fn kept_ratio(alpha: Double) -> Double {
    if zero().below(alpha) && alpha.finite() {
        alpha
    } else {
        one()
    }
}

/// The Newton weight of one observation without its prior weight, for some
/// answers of link and variance.
pub open spec fn kept_weight_read<F: Arithmetic, K: Link, V: VarianceFn>(
    link: K,
    variance: V,
    y: Double,
    mu: Double,
    w: Double,
) -> bool {
    exists|s: RowShape| #[trigger]
        row_read::<K, V>(link, variance, mu, s) && w == times::<F>(
            fisher_weight_of::<F>(s),
            kept_ratio(alpha_of::<F>(y, mu, s)),
        )
}

/// The Newton weights without prior weights.
pub open spec fn kept_weights_read<F: Arithmetic, K: Link, V: VarianceFn>(
    link: K,
    variance: V,
    y: Seq<Double>,
    mu: Seq<Double>,
    w: Seq<Double>,
) -> bool {
    &&& w.len() == y.len()
    &&& forall|i: int|
        0 <= i < y.len() ==> kept_weight_read::<F, K, V>(link, variance, y[i], mu[i], #[trigger] w[i])
}

/// The Newton weights without prior weights.
pub fn kept_weights<F: Arithmetic, K: Link, V: VarianceFn>(
    link: &K,
    variance: &V,
    y: &Vec<Double>,
    mu: &Vec<Double>,
) -> (w: Vec<Double>)
    requires
        lawful::<F>(),
        mu@.len() == y@.len(),
    ensures
        kept_weights_read::<F, K, V>(*link, *variance, y@, mu@, w@),
{
    let mut w: Vec<Double> = Vec::new();
    for i in 0..y.len()
        invariant
            lawful::<F>(),
            mu@.len() == y@.len(),
            w@.len() == i,
            forall|k: int|
                0 <= k < i ==> kept_weight_read::<F, K, V>(
                    *link,
                    *variance,
                    y@[k],
                    mu@[k],
                    #[trigger] w@[k],
                ),
    {
        let s: RowShape = read_row::<K, V>(link, variance, mu[i]);
        let var: Double = s.variance.max(lit(E_M300));
        let wf: Double = over::<F>(one(), times::<F>(times::<F>(var, s.g1), s.g1));
        let ratio: Double = plus::<F>(over::<F>(s.v1, var), over::<F>(s.g2, s.g1));
        let raw: Double = plus::<F>(one(), times::<F>(minus::<F>(y[i], mu[i]), ratio));
        let alpha: Double = if zero().lt(raw) && raw.is_finite() {
            raw
        } else {
            one()
        };
        let wi: Double = times::<F>(wf, alpha);
        assert(row_read::<K, V>(*link, *variance, mu@[i as int], s));
        assert(kept_weight_read::<F, K, V>(*link, *variance, y@[i as int], mu@[i as int], wi));
        w.push(wi);
    }
    w
}

/// The joint Hessian from the block of the log smoothing parameters and central
/// differences along the shape parameters. The mixed blocks mirror each other;
/// the shape block is symmetrised.
pub open spec fn bordered_of<F: Arithmetic>(
    m: nat,
    d: nat,
    rho_block: Seq<Seq<Double>>,
    up: Seq<Vec<Double>>,
    down: Seq<Vec<Double>>,
    eps: Double,
) -> Seq<Seq<Double>> {
    let diff = |j: int, c: int| central_of::<F>(up[c - m]@[j], down[c - m]@[j], eps);
    grid(
        d,
        d,
        |r: int, c: int|
            if r < m && c < m {
                rho_block[r][c]
            } else if r < m {
                diff(r, c)
            } else if c < m {
                diff(c, r)
            } else if r == c {
                diff(r, c)
            } else if r < c {
                times::<F>(half(), plus::<F>(diff(r, c), diff(c, r)))
            } else {
                times::<F>(half(), plus::<F>(diff(c, r), diff(r, c)))
            },
    )
}

/// The joint Hessian from the block of the log smoothing parameters and central
/// differences along the shape parameters.
pub fn bordered<F: Arithmetic>(
    m: usize,
    d: usize,
    rho_block: &Matrix,
    up: &Vec<Vec<Double>>,
    down: &Vec<Vec<Double>>,
    eps: Double,
) -> (r: Matrix)
    requires
        lawful::<F>(),
        m <= d,
        rho_block.square(m as nat),
        up@.len() == d - m,
        down@.len() == d - m,
        forall|k: int| 0 <= k < d - m ==> (#[trigger] up@[k])@.len() == d,
        forall|k: int| 0 <= k < d - m ==> (#[trigger] down@[k])@.len() == d,
    ensures
        r.square(d as nat),
        r@ == bordered_of::<F>(m as nat, d as nat, rho_block@, up@, down@, eps),
{
    let diff = |j: usize, c: usize| -> (v: Double)
        requires
            j < d,
            m <= c < d,
        ensures
            v == central_of::<F>(up@[c - m]@[j as int], down@[c - m]@[j as int], eps),
        {
            assert(up@[c - m]@.len() == d);
            assert(down@[c - m]@.len() == d);
            central::<F>(up[c - m][j], down[c - m][j], eps)
        };
    let entry = |r: usize, c: usize| -> (v: Double)
        requires
            r < d,
            c < d,
        ensures
            v == bordered_of::<F>(m as nat, d as nat, rho_block@, up@, down@, eps)[r as int][c as int],
        {
            if r < m && c < m {
                rho_block.get(r, c)
            } else if r < m {
                diff(r, c)
            } else if c < m {
                diff(c, r)
            } else if r == c {
                diff(r, c)
            } else if r < c {
                times::<F>(half(), plus::<F>(diff(r, c), diff(c, r)))
            } else {
                times::<F>(half(), plus::<F>(diff(c, r), diff(r, c)))
            }
        };
    let out: Matrix = Matrix::fill(d, d, entry);
    proof {
        let f = |r: int, c: int|
            bordered_of::<F>(m as nat, d as nat, rho_block@, up@, down@, eps)[r][c];
        out.lemma_is_grid(d as nat, d as nat, f);
        assert(grid(d as nat, d as nat, f) =~= bordered_of::<F>(
            m as nat,
            d as nat,
            rho_block@,
            up@,
            down@,
            eps,
        )) by {
            assert forall|r: int| 0 <= r < d implies #[trigger] grid(d as nat, d as nat, f)[r]
                =~= bordered_of::<F>(m as nat, d as nat, rho_block@, up@, down@, eps)[r] by {}
        }
    }
    out
}

/// A Hessian with its block of the shape parameters replaced.
pub open spec fn with_block_of(h: Seq<Seq<Double>>, m: nat, block: Seq<Seq<Double>>) -> Seq<Seq<Double>> {
    grid(
        h.len(),
        h.len(),
        |r: int, c: int|
            if r >= m && c >= m {
                block[r - m][c - m]
            } else {
                h[r][c]
            },
    )
}

/// Replaces the block of the shape parameters.
pub fn with_block(h: &Matrix, m: usize, block: &Matrix) -> (r: Matrix)
    requires
        h.square(h@.len()),
        m <= h@.len(),
        block.square((h@.len() - m) as nat),
    ensures
        r.square(h@.len()),
        r@ == with_block_of(h@, m as nat, block@),
{
    let d: usize = h.rows.len();
    let entry = |r: usize, c: usize| -> (v: Double)
        requires
            r < d,
            c < d,
        ensures
            v == (if r >= m && c >= m {
                block@[r - m][c - m]
            } else {
                h@[r as int][c as int]
            }),
        {
            if r >= m && c >= m {
                block.get(r - m, c - m)
            } else {
                h.get(r, c)
            }
        };
    let out: Matrix = Matrix::fill(d, d, entry);
    proof {
        out.lemma_is_grid(
            d as nat,
            d as nat,
            |r: int, c: int|
                if r >= m && c >= m {
                    block@[r - m][c - m]
                } else {
                    h@[r][c]
                },
        );
    }
    out
}

/// Replacing the block of the shape parameters leaves every other entry alone.
pub proof fn law_block_replaces_only_itself(h: Seq<Seq<Double>>, m: nat, block: Seq<Seq<Double>>, r: int, c: int)
    requires
        0 <= r < h.len(),
        0 <= c < h.len(),
    ensures
        r < m || c < m ==> with_block_of(h, m, block)[r][c] == h[r][c],
        r >= m && c >= m ==> with_block_of(h, m, block)[r][c] == block[r - m][c - m],
{
}

impl<L: ShapeLoss<K, V>, K: Link, V: VarianceFn, B, P, D: DenseBackend, S: LinearSolver> ShapeAwareEnvelopeScore<
    L,
    K,
    V,
    B,
    P,
    D,
    S,
> {
    /// A gradient `d` long at a point, from a fit there.
    pub open spec fn gradient_there<F: Arithmetic>(
        &self,
        theta: Seq<Double>,
        g: Seq<Double>,
        before: ObservedPdCounts,
        after: ObservedPdCounts,
    ) -> bool where B: ShapeInnerBuilder<F, D, S, L, K, V>, P: Profile<F, L> {
        exists|v: Double| #[trigger] self.value_grad_there::<F>(theta, v, g, before, after)
    }

    /// The shift along axis `i` when the coefficients are held fixed for the shape
    /// parameters: 1e-4 for a log smoothing parameter, else 1e-5.
    pub open spec fn frozen_eps(&self, i: int) -> Double {
        if i < self.terms() {
            lit(E_M4)
        } else {
            lit(E_M5)
        }
    }

    /// The gradient at the point shifted along axis `i`: from a fit there for a log
    /// smoothing parameter, with the coefficients held fixed and nothing counted for
    /// a shape parameter.
    pub open spec fn side_gradient<F: Arithmetic>(
        &self,
        theta: Seq<Double>,
        fit: GaussianInnerFit<S>,
        c: FrozenBetaCtx,
        i: int,
        up: bool,
        g: Seq<Double>,
        before: ObservedPdCounts,
        after: ObservedPdCounts,
    ) -> bool where B: ShapeInnerBuilder<F, D, S, L, K, V>, P: Profile<F, L> {
        let at = shifted::<F>(theta, i, self.frozen_eps(i), up);
        &&& g.len() == self.axes()
        &&& if i < self.terms() {
            self.gradient_there::<F>(at, g, before, after)
        } else {
            self.frozen_there::<F>(at, fit, c, g) && after == before
        }
    }

    /// Gradients at the points shifted along the first `n` axes, both sides of one
    /// axis before the next.
    pub open spec fn side_gradients<F: Arithmetic>(
        &self,
        theta: Seq<Double>,
        fit: GaussianInnerFit<S>,
        c: FrozenBetaCtx,
        n: nat,
        up: Seq<Vec<Double>>,
        down: Seq<Vec<Double>>,
        before: ObservedPdCounts,
        after: ObservedPdCounts,
    ) -> bool where B: ShapeInnerBuilder<F, D, S, L, K, V>, P: Profile<F, L>
        decreases n,
    {
        &&& up.len() == n
        &&& down.len() == n
        &&& if n == 0 {
            after == before
        } else {
            let i = n - 1;
            exists|mid: ObservedPdCounts, half: ObservedPdCounts|
                self.side_gradients::<F>(
                    theta,
                    fit,
                    c,
                    i as nat,
                    up.drop_last(),
                    down.drop_last(),
                    before,
                    mid,
                ) && #[trigger] self.side_gradient::<F>(theta, fit, c, i, true, up.last()@, mid, half)
                    && #[trigger] self.side_gradient::<F>(
                    theta,
                    fit,
                    c,
                    i,
                    false,
                    down.last()@,
                    half,
                    after,
                )
        }
    }

    /// The Hessian by central differences of the gradient, with the coefficients
    /// held fixed for the shape parameters.
    pub open spec fn frozen_hessian<F: Arithmetic>(
        &self,
        theta: Seq<Double>,
        fit: GaussianInnerFit<S>,
        c: FrozenBetaCtx,
        h: Seq<Seq<Double>>,
        before: ObservedPdCounts,
        after: ObservedPdCounts,
    ) -> bool where B: ShapeInnerBuilder<F, D, S, L, K, V>, P: Profile<F, L> {
        exists|up: Seq<Vec<Double>>, down: Seq<Vec<Double>>| #[trigger]
            self.side_gradients::<F>(theta, fit, c, self.axes(), up, down, before, after) && h
                == differences_of::<F>(self.axes(), up, down, |i: int| self.frozen_eps(i))
    }

    /// A gradient at a shifted point could not be had, after those along the axes
    /// before it were.
    pub open spec fn side_fails<F: Arithmetic>(
        &self,
        theta: Seq<Double>,
        fit: GaussianInnerFit<S>,
        c: FrozenBetaCtx,
        e: GamrsError,
        before: ObservedPdCounts,
        after: ObservedPdCounts,
    ) -> bool where B: ShapeInnerBuilder<F, D, S, L, K, V>, P: Profile<F, L> {
        exists|i: nat, up: Seq<Vec<Double>>, down: Seq<Vec<Double>>, mid: ObservedPdCounts|
            i < self.axes() && #[trigger] self.side_gradients::<F>(
                theta,
                fit,
                c,
                i,
                up,
                down,
                before,
                mid,
            ) && self.axis_fails::<F>(theta, fit, c, i as int, e, mid, after)
    }

    /// The gradient on the upper side along one axis could not be had, or that on
    /// the lower side once the upper one was.
    pub open spec fn axis_fails<F: Arithmetic>(
        &self,
        theta: Seq<Double>,
        fit: GaussianInnerFit<S>,
        c: FrozenBetaCtx,
        i: int,
        e: GamrsError,
        before: ObservedPdCounts,
        after: ObservedPdCounts,
    ) -> bool where B: ShapeInnerBuilder<F, D, S, L, K, V>, P: Profile<F, L> {
        ||| self.side_fails_at::<F>(theta, fit, c, i, true, e, before, after)
        ||| exists|g: Seq<Double>, half: ObservedPdCounts| #[trigger]
            self.side_gradient::<F>(theta, fit, c, i, true, g, before, half)
                && self.side_fails_at::<F>(theta, fit, c, i, false, e, half, after)
    }

    /// The gradient at the point shifted along one axis could not be had: from a
    /// fit there along a log smoothing parameter, with the coefficients held fixed
    /// along a shape parameter.
    pub open spec fn side_fails_at<F: Arithmetic>(
        &self,
        theta: Seq<Double>,
        fit: GaussianInnerFit<S>,
        c: FrozenBetaCtx,
        i: int,
        up: bool,
        e: GamrsError,
        before: ObservedPdCounts,
        after: ObservedPdCounts,
    ) -> bool where B: ShapeInnerBuilder<F, D, S, L, K, V>, P: Profile<F, L> {
        let at = shifted::<F>(theta, i, self.frozen_eps(i), up);
        if i < self.terms() {
            self.value_grad_fails::<F>(at, e, before, after)
        } else {
            self.frozen_fails::<F>(at, fit, c, e) && after == before
        }
    }

    fn side<F: Arithmetic>(
        &self,
        theta: &Vec<Double>,
        fit: &GaussianInnerFit<S>,
        c: &FrozenBetaCtx,
        i: usize,
        up: bool,
        counts: &mut ObservedPdCounts,
    ) -> (r: Result<Vec<Double>, GamrsError>) where
        B: ShapeInnerBuilder<F, D, S, L, K, V>,
        P: Profile<F, L>,

        requires
            lawful::<F>(),
            self.wf(),
            self.sized(*fit),
            c.fits(self.terms()),
            theta@.len() == self.axes(),
            i < self.axes(),
        ensures
            match r {
                Ok(g) => self.side_gradient::<F>(
                    theta@,
                    *fit,
                    *c,
                    i as int,
                    up,
                    g@,
                    *old(counts),
                    *final(counts),
                ) && g@.len() == self.axes(),
                Err(e) => self.side_fails_at::<F>(
                    theta@,
                    *fit,
                    *c,
                    i as int,
                    up,
                    e,
                    *old(counts),
                    *final(counts),
                ),
            },
            counted_some(self.data.observed_on, *old(counts), *final(counts)),
    {
        proof {
            assert(with_outcomes(*counts, Seq::<bool>::empty()) == *counts);
        }
        let m: usize = self.data.s_list.len();
        let eps: Double = if i < m {
            lit(E_M4)
        } else {
            lit(E_M5)
        };
        let at: Vec<Double> = shift::<F>(theta, i, eps, up);
        if i < m {
            match self.compute_value_grad::<F>(&at, counts) {
                Ok(out) => {
                    assert(self.value_grad_there::<F>(at@, out.0, out.1@, *old(counts), *counts));
                    Ok(out.1)
                },
                Err(e) => Err(e),
            }
        } else {
            self.eval_grad_frozen_beta::<F>(&at, fit, c)
        }
    }

    /// The Hessian by central differences of the gradient, with the coefficients
    /// held fixed for the shape parameters.
    pub fn hess_via_fd_frozen_beta<F: Arithmetic>(
        &self,
        theta: &Vec<Double>,
        fit: &GaussianInnerFit<S>,
        c: &FrozenBetaCtx,
        counts: &mut ObservedPdCounts,
    ) -> (r: Result<Matrix, GamrsError>) where
        B: ShapeInnerBuilder<F, D, S, L, K, V>,
        P: Profile<F, L>,

        requires
            lawful::<F>(),
            self.wf(),
            self.sized(*fit),
            c.fits(self.terms()),
            theta@.len() == self.axes(),
        ensures
            match r {
                Ok(h) => h.square(self.axes()) && self.frozen_hessian::<F>(
                    theta@,
                    *fit,
                    *c,
                    h@,
                    *old(counts),
                    *final(counts),
                ),
                Err(e) => self.side_fails::<F>(
                    theta@,
                    *fit,
                    *c,
                    e,
                    *old(counts),
                    *final(counts),
                ),
            },
            counted_some(self.data.observed_on, *old(counts), *final(counts)),
    {
        proof {
            assert(with_outcomes(*counts, Seq::<bool>::empty()) == *counts);
        }
        let d: usize = theta.len();
        let m: usize = self.data.s_list.len();
        let mut up: Vec<Vec<Double>> = Vec::new();
        let mut down: Vec<Vec<Double>> = Vec::new();
        let mut eps: Vec<Double> = Vec::new();
        for i in 0..d
            invariant
                lawful::<F>(),
                self.wf(),
                self.sized(*fit),
                c.fits(self.terms()),
                d == theta@.len(),
                m == self.terms(),
                theta@.len() == self.axes(),
                counted_some(self.data.observed_on, *old(counts), *counts),
                self.side_gradients::<F>(
                    theta@,
                    *fit,
                    *c,
                    i as nat,
                    up@,
                    down@,
                    *old(counts),
                    *counts,
                ),
                up@.len() == i,
                down@.len() == i,
                forall|k: int| 0 <= k < i ==> (#[trigger] up@[k])@.len() == d,
                forall|k: int| 0 <= k < i ==> (#[trigger] down@[k])@.len() == d,
                eps@.len() == i,
                forall|k: int| 0 <= k < i ==> #[trigger] eps@[k] == self.frozen_eps(k),
        {
            let ghost mid = *counts;
            let gp: Vec<Double> = match self.side::<F>(theta, fit, c, i, true, counts) {
                Ok(g) => g,
                Err(e) => {
                    assert(self.axis_fails::<F>(theta@, *fit, *c, i as int, e, mid, *counts));
                    return Err(e);
                },
            };
            let ghost half = *counts;
            assert(self.side_gradient::<F>(theta@, *fit, *c, i as int, true, gp@, mid, half));
            let gm: Vec<Double> = match self.side::<F>(theta, fit, c, i, false, counts) {
                Ok(g) => g,
                Err(e) => {
                    assert(self.axis_fails::<F>(theta@, *fit, *c, i as int, e, mid, *counts));
                    return Err(e);
                },
            };
            let ghost upper = up@;
            let ghost lower = down@;
            up.push(gp);
            down.push(gm);
            proof {
                assert(up@.drop_last() =~= upper);
                assert(down@.drop_last() =~= lower);
                assert(self.side_gradient::<F>(
                    theta@,
                    *fit,
                    *c,
                    (i + 1) - 1,
                    true,
                    up@.last()@,
                    mid,
                    half,
                ));
                assert(self.side_gradient::<F>(
                    theta@,
                    *fit,
                    *c,
                    (i + 1) - 1,
                    false,
                    down@.last()@,
                    half,
                    *counts,
                ));
            }
            eps.push(
                if i < m {
                    lit(E_M4)
                } else {
                    lit(E_M5)
                },
            );
        }
        Ok(differences::<F>(d, &up, &down, &eps, Ghost(|i: int| self.frozen_eps(i))))
    }

    /// A point shifted by 1e-4 along two axes.
    pub open spec fn corner<F: Arithmetic>(&self, theta: Seq<Double>, i: int, up_i: bool, j: int, up_j: bool) -> Seq<
        Double,
    > {
        shifted::<F>(shifted::<F>(theta, i, lit(E_M4), up_i), j, lit(E_M4), up_j)
    }

    /// The points whose scores an entry of the Hessian is taken from: on both sides
    /// along one axis, at the four corners along two.
    pub open spec fn entry_points<F: Arithmetic>(&self, theta: Seq<Double>, i: int, j: int) -> Seq<Seq<Double>> {
        if i == j {
            self.sides::<F>(theta, i, lit(E_M4))
        } else {
            seq![
                self.corner::<F>(theta, i, true, j, true),
                self.corner::<F>(theta, i, true, j, false),
                self.corner::<F>(theta, i, false, j, true),
                self.corner::<F>(theta, i, false, j, false),
            ]
        }
    }

    /// The entry of the Hessian by differences of the score, for `i <= j`.
    pub open spec fn value_entry<F: Arithmetic>(
        &self,
        theta: Seq<Double>,
        mid: Double,
        i: int,
        j: int,
        x: Double,
        before: ObservedPdCounts,
        after: ObservedPdCounts,
    ) -> bool where B: ShapeInnerBuilder<F, D, S, L, K, V>, P: Profile<F, L> {
        exists|v: Seq<Double>| #[trigger]
            self.values_there::<F>(self.entry_points::<F>(theta, i, j), v, before, after) && x == if i
                == j {
                second_of::<F>(v[0], mid, v[1], lit(E_M4))
            } else {
                mixed_of::<F>(v[0], v[1], v[2], v[3], lit(E_M4))
            }
    }

    /// The first `n` entries of row `i` from the diagonal on, one after the other.
    pub open spec fn value_row<F: Arithmetic>(
        &self,
        theta: Seq<Double>,
        mid: Double,
        i: int,
        n: nat,
        row: Seq<Double>,
        before: ObservedPdCounts,
        after: ObservedPdCounts,
    ) -> bool where B: ShapeInnerBuilder<F, D, S, L, K, V>, P: Profile<F, L>
        decreases n,
    {
        &&& row.len() == n
        &&& if n == 0 {
            after == before
        } else {
            exists|t: ObservedPdCounts|
                self.value_row::<F>(theta, mid, i, (n - 1) as nat, row.drop_last(), before, t)
                    && #[trigger] self.value_entry::<F>(
                    theta,
                    mid,
                    i,
                    i + n - 1,
                    row.last(),
                    t,
                    after,
                )
        }
    }

    /// The first `n` rows from the diagonal on, one after the other.
    pub open spec fn value_rows<F: Arithmetic>(
        &self,
        theta: Seq<Double>,
        mid: Double,
        n: nat,
        rows: Seq<Vec<Double>>,
        before: ObservedPdCounts,
        after: ObservedPdCounts,
    ) -> bool where B: ShapeInnerBuilder<F, D, S, L, K, V>, P: Profile<F, L>
        decreases n,
    {
        &&& rows.len() == n
        &&& if n == 0 {
            after == before
        } else {
            exists|t: ObservedPdCounts|
                self.value_rows::<F>(theta, mid, (n - 1) as nat, rows.drop_last(), before, t)
                    && #[trigger] self.value_row::<F>(
                    theta,
                    mid,
                    n - 1,
                    (self.axes() - (n - 1)) as nat,
                    rows.last()@,
                    t,
                    after,
                )
        }
    }

    /// The Hessian by second differences of the score: the score at the point, then
    /// the rows from the diagonal on, mirrored.
    pub open spec fn value_hessian<F: Arithmetic>(
        &self,
        theta: Seq<Double>,
        h: Seq<Seq<Double>>,
        before: ObservedPdCounts,
        after: ObservedPdCounts,
    ) -> bool where B: ShapeInnerBuilder<F, D, S, L, K, V>, P: Profile<F, L> {
        exists|mid: Double, t: ObservedPdCounts, rows: Seq<Vec<Double>>|
            self.value_counted::<F>(theta, mid, before, t) && #[trigger] self.value_rows::<F>(
                theta,
                mid,
                self.axes(),
                rows,
                t,
                after,
            ) && h.len() == self.axes() && forall|i: int, j: int|
                0 <= i <= j < self.axes() ==> #[trigger] h[i][j] == rows[i]@[j - i] && h[j][i]
                    == h[i][j]
    }

    /// A fit at one of the points of the second differences failed, after those
    /// before it were had.
    pub open spec fn value_hessian_fails<F: Arithmetic>(
        &self,
        theta: Seq<Double>,
        e: GamrsError,
        before: ObservedPdCounts,
        after: ObservedPdCounts,
    ) -> bool where B: ShapeInnerBuilder<F, D, S, L, K, V>, P: Profile<F, L> {
        ||| self.unfitted::<F>(theta, e) && after == before
        ||| exists|mid: Double, t: ObservedPdCounts| #[trigger]
            self.value_counted::<F>(theta, mid, before, t) && self.value_rows_fail::<F>(
                theta,
                mid,
                e,
                t,
                after,
            )
    }

    /// A fit at one of the points of an entry failed, after the entries before it
    /// were had.
    pub open spec fn value_rows_fail<F: Arithmetic>(
        &self,
        theta: Seq<Double>,
        mid: Double,
        e: GamrsError,
        before: ObservedPdCounts,
        after: ObservedPdCounts,
    ) -> bool where B: ShapeInnerBuilder<F, D, S, L, K, V>, P: Profile<F, L> {
        exists|
            i: nat,
            rows: Seq<Vec<Double>>,
            t: ObservedPdCounts,
            n: nat,
            row: Seq<Double>,
            u: ObservedPdCounts,
        |
            i + n < self.axes() && #[trigger] self.value_rows::<F>(theta, mid, i, rows, before, t)
                && #[trigger] self.value_row::<F>(theta, mid, i as int, n, row, t, u)
                && self.values_fail::<F>(
                self.entry_points::<F>(theta, i as int, (i + n) as int),
                e,
                u,
                after,
            )
    }

    fn corner_at<F: Arithmetic>(&self, theta: &Vec<Double>, i: usize, up_i: bool, j: usize, up_j: bool) -> (at: Vec<
        Double,
    >)
        requires
            lawful::<F>(),
            theta@.len() == self.axes(),
            i < self.axes(),
            j < self.axes(),
        ensures
            at@ == self.corner::<F>(theta@, i as int, up_i, j as int, up_j),
            at@.len() == self.axes(),
    {
        let once: Vec<Double> = shift::<F>(theta, i, lit(E_M4), up_i);
        shift::<F>(&once, j, lit(E_M4), up_j)
    }

    fn value_difference<F: Arithmetic>(&self, theta: &Vec<Double>, mid: Double, i: usize, j: usize, counts: &mut ObservedPdCounts) -> (r: Result<
        Double,
        GamrsError,
    >) where B: ShapeInnerBuilder<F, D, S, L, K, V>, P: Profile<F, L>
        requires
            lawful::<F>(),
            self.wf(),
            theta@.len() == self.axes(),
            i <= j < self.axes(),
        ensures
            match r {
                Ok(x) => self.value_entry::<F>(
                    theta@,
                    mid,
                    i as int,
                    j as int,
                    x,
                    *old(counts),
                    *final(counts),
                ),
                Err(e) => self.values_fail::<F>(
                    self.entry_points::<F>(theta@, i as int, j as int),
                    e,
                    *old(counts),
                    *final(counts),
                ),
            },
            counted_some(self.data.observed_on, *old(counts), *final(counts)),
    {
        let eps: Double = lit(E_M4);
        if i == j {
            let (up, down) = match self.values_beside::<F>(theta, i, eps, counts) {
                Ok(v) => v,
                Err(e) => return Err(e),
            };
            let ghost v = seq![up, down];
            assert(self.values_there::<F>(
                self.entry_points::<F>(theta@, i as int, j as int),
                v,
                *old(counts),
                *counts,
            ));
            Ok(
                over::<F>(
                    plus::<F>(minus::<F>(up, times::<F>(two(), mid)), down),
                    times::<F>(eps, eps),
                ),
            )
        } else {
            let mut points: Vec<Vec<Double>> = Vec::new();
            points.push(self.corner_at::<F>(theta, i, true, j, true));
            points.push(self.corner_at::<F>(theta, i, true, j, false));
            points.push(self.corner_at::<F>(theta, i, false, j, true));
            points.push(self.corner_at::<F>(theta, i, false, j, false));
            assert(points_of(points@) =~= self.entry_points::<F>(theta@, i as int, j as int));
            let v: Vec<Double> = match self.compute_values::<F>(&points, counts) {
                Ok(v) => v,
                Err(e) => return Err(e),
            };
            Ok(
                over::<F>(
                    plus::<F>(minus::<F>(minus::<F>(v[0], v[1]), v[2]), v[3]),
                    times::<F>(times::<F>(lit(FOUR), eps), eps),
                ),
            )
        }
    }

    /// The Hessian by second differences of the score.
    pub fn hess_via_fd_on_value<F: Arithmetic>(&self, theta: &Vec<Double>, counts: &mut ObservedPdCounts) -> (r: Result<Matrix, GamrsError>) where
        B: ShapeInnerBuilder<F, D, S, L, K, V>,
        P: Profile<F, L>,

        requires
            lawful::<F>(),
            self.wf(),
            theta@.len() == self.axes(),
        ensures
            match r {
                Ok(h) => h.square(self.axes()) && self.value_hessian::<F>(
                    theta@,
                    h@,
                    *old(counts),
                    *final(counts),
                ),
                Err(e) => self.value_hessian_fails::<F>(theta@, e, *old(counts), *final(counts)),
            },
            counted_some(self.data.observed_on, *old(counts), *final(counts)),
    {
        proof {
            assert(with_outcomes(*counts, Seq::<bool>::empty()) == *counts);
        }
        let d: usize = theta.len();
        let mid: Double = match self.compute_value::<F>(theta, counts) {
            Ok(v) => v,
            Err(e) => return Err(e),
        };
        let ghost first = *counts;
        let mut rows: Vec<Vec<Double>> = Vec::new();
        for i in 0..d
            invariant
                lawful::<F>(),
                self.wf(),
                d == theta@.len(),
                theta@.len() == self.axes(),
                counted_some(self.data.observed_on, *old(counts), *counts),
                self.value_counted::<F>(theta@, mid, *old(counts), first),
                self.value_rows::<F>(theta@, mid, i as nat, rows@, first, *counts),
                rows@.len() == i,
                forall|k: int| 0 <= k < i ==> (#[trigger] rows@[k])@.len() == d - k,
        {
            let ghost begun = *counts;
            let mut row: Vec<Double> = Vec::new();
            for j in i..d
                invariant
                    lawful::<F>(),
                    self.wf(),
                    i < d,
                    d == theta@.len(),
                    theta@.len() == self.axes(),
                    counted_some(self.data.observed_on, *old(counts), *counts),
                    self.value_counted::<F>(theta@, mid, *old(counts), first),
                    self.value_rows::<F>(theta@, mid, i as nat, rows@, first, begun),
                    self.value_row::<F>(
                        theta@,
                        mid,
                        i as int,
                        (j - i) as nat,
                        row@,
                        begun,
                        *counts,
                    ),
            {
                let ghost t = *counts;
                let ghost shorter = row@;
                let x: Double = match self.value_difference::<F>(theta, mid, i, j, counts) {
                    Ok(v) => v,
                    Err(e) => {
                        assert(self.value_row::<F>(
                            theta@,
                            mid,
                            i as nat as int,
                            (j - i) as nat,
                            shorter,
                            begun,
                            t,
                        ));
                        assert(i as nat + (j - i) as nat == j);
                        assert(self.value_rows_fail::<F>(theta@, mid, e, first, *counts));
                        return Err(e);
                    },
                };
                row.push(x);
                proof {
                    assert(row@.drop_last() =~= shorter);
                    let n = (j + 1 - i) as nat;
                    assert(self.value_entry::<F>(
                        theta@,
                        mid,
                        i as int,
                        i + n - 1,
                        row@.last(),
                        t,
                        *counts,
                    ));
                }
            }
            let ghost above = rows@;
            rows.push(row);
            proof {
                assert(rows@.drop_last() =~= above);
                let n = (i + 1) as nat;
                assert(self.value_row::<F>(
                    theta@,
                    mid,
                    n - 1,
                    (self.axes() - (n - 1)) as nat,
                    rows@.last()@,
                    begun,
                    *counts,
                ));
            }
        }
        let entry = |i: usize, j: usize| -> (v: Double)
            requires
                i <= j < d,
            ensures
                v == rows@[i as int]@[j - i],
            {
                assert(rows@[i as int]@.len() == d - i);
                rows[i][j - i]
            };
        let h: Matrix = mirror(d, entry, Ghost(|i: int, j: int| rows@[i]@[j - i]));
        Ok(h)
    }

    /// The Hessian by central differences of the gradient, from a fit at every
    /// shifted point.
    pub open spec fn gradient_hessian<F: Arithmetic>(
        &self,
        theta: Seq<Double>,
        h: Seq<Seq<Double>>,
        before: ObservedPdCounts,
        after: ObservedPdCounts,
    ) -> bool where B: ShapeInnerBuilder<F, D, S, L, K, V>, P: Profile<F, L> {
        exists|up: Seq<Vec<Double>>, down: Seq<Vec<Double>>| #[trigger]
            self.fresh_gradients::<F>(theta, self.axes(), up, down, before, after) && h
                == differences_of::<F>(self.axes(), up, down, |i: int| lit(E_M4))
    }

    /// Gradients from fits at the points shifted along the first `n` axes, both
    /// sides of one axis before the next.
    pub open spec fn fresh_gradients<F: Arithmetic>(
        &self,
        theta: Seq<Double>,
        n: nat,
        up: Seq<Vec<Double>>,
        down: Seq<Vec<Double>>,
        before: ObservedPdCounts,
        after: ObservedPdCounts,
    ) -> bool where B: ShapeInnerBuilder<F, D, S, L, K, V>, P: Profile<F, L>
        decreases n,
    {
        &&& up.len() == n
        &&& down.len() == n
        &&& if n == 0 {
            after == before
        } else {
            exists|mid: ObservedPdCounts, half: ObservedPdCounts|
                self.fresh_gradients::<F>(
                    theta,
                    (n - 1) as nat,
                    up.drop_last(),
                    down.drop_last(),
                    before,
                    mid,
                ) && #[trigger] self.gradient_there::<F>(
                    shifted::<F>(theta, n - 1, lit(E_M4), true),
                    up.last()@,
                    mid,
                    half,
                ) && #[trigger] self.gradient_there::<F>(
                    shifted::<F>(theta, n - 1, lit(E_M4), false),
                    down.last()@,
                    half,
                    after,
                )
        }
    }

    /// A gradient at a shifted point could not be had, after those along the axes
    /// before it were.
    pub open spec fn fresh_gradients_fail<F: Arithmetic>(
        &self,
        theta: Seq<Double>,
        e: GamrsError,
        before: ObservedPdCounts,
        after: ObservedPdCounts,
    ) -> bool where B: ShapeInnerBuilder<F, D, S, L, K, V>, P: Profile<F, L> {
        exists|i: nat, up: Seq<Vec<Double>>, down: Seq<Vec<Double>>, mid: ObservedPdCounts|
            i < self.axes() && #[trigger] self.fresh_gradients::<F>(theta, i, up, down, before, mid)
                && self.fresh_axis_fails::<F>(theta, i as int, e, mid, after)
    }

    /// The gradient on the upper side along one axis could not be had, or that on
    /// the lower side once the upper one was.
    pub open spec fn fresh_axis_fails<F: Arithmetic>(
        &self,
        theta: Seq<Double>,
        i: int,
        e: GamrsError,
        before: ObservedPdCounts,
        after: ObservedPdCounts,
    ) -> bool where B: ShapeInnerBuilder<F, D, S, L, K, V>, P: Profile<F, L> {
        let upper = shifted::<F>(theta, i, lit(E_M4), true);
        let lower = shifted::<F>(theta, i, lit(E_M4), false);
        ||| self.value_grad_fails::<F>(upper, e, before, after)
        ||| exists|g: Seq<Double>, half: ObservedPdCounts| #[trigger]
            self.gradient_there::<F>(upper, g, before, half) && self.value_grad_fails::<F>(
                lower,
                e,
                half,
                after,
            )
    }

    /// The Hessian by central differences of the gradient, from a fit at every
    /// shifted point.
    pub fn hess_via_fd_on_grad<F: Arithmetic>(&self, theta: &Vec<Double>, counts: &mut ObservedPdCounts) -> (r: Result<Matrix, GamrsError>) where
        B: ShapeInnerBuilder<F, D, S, L, K, V>,
        P: Profile<F, L>,

        requires
            lawful::<F>(),
            self.wf(),
            theta@.len() == self.axes(),
        ensures
            match r {
                Ok(h) => h.square(self.axes()) && self.gradient_hessian::<F>(
                    theta@,
                    h@,
                    *old(counts),
                    *final(counts),
                ),
                Err(e) => self.fresh_gradients_fail::<F>(theta@, e, *old(counts), *final(counts)),
            },
            counted_some(self.data.observed_on, *old(counts), *final(counts)),
    {
        proof {
            assert(with_outcomes(*counts, Seq::<bool>::empty()) == *counts);
        }
        let d: usize = theta.len();
        let mut up: Vec<Vec<Double>> = Vec::new();
        let mut down: Vec<Vec<Double>> = Vec::new();
        for i in 0..d
            invariant
                lawful::<F>(),
                self.wf(),
                d == theta@.len(),
                theta@.len() == self.axes(),
                counted_some(self.data.observed_on, *old(counts), *counts),
                self.fresh_gradients::<F>(theta@, i as nat, up@, down@, *old(counts), *counts),
                up@.len() == i,
                down@.len() == i,
                forall|k: int| 0 <= k < i ==> (#[trigger] up@[k])@.len() == d,
                forall|k: int| 0 <= k < i ==> (#[trigger] down@[k])@.len() == d,
        {
            let ghost mid = *counts;
            let tp: Vec<Double> = shift::<F>(theta, i, lit(E_M4), true);
            let gp: Vec<Double> = match self.compute_value_grad::<F>(&tp, counts) {
                Ok(out) => {
                    assert(self.value_grad_there::<F>(tp@, out.0, out.1@, mid, *counts));
                    out.1
                },
                Err(e) => {
                    assert(self.fresh_axis_fails::<F>(theta@, i as int, e, mid, *counts));
                    return Err(e);
                },
            };
            let ghost half = *counts;
            assert(self.gradient_there::<F>(tp@, gp@, mid, half));
            let tm: Vec<Double> = shift::<F>(theta, i, lit(E_M4), false);
            let gm: Vec<Double> = match self.compute_value_grad::<F>(&tm, counts) {
                Ok(out) => {
                    assert(self.value_grad_there::<F>(tm@, out.0, out.1@, half, *counts));
                    out.1
                },
                Err(e) => {
                    assert(self.fresh_axis_fails::<F>(theta@, i as int, e, mid, *counts));
                    return Err(e);
                },
            };
            let ghost upper = up@;
            let ghost lower = down@;
            up.push(gp);
            down.push(gm);
            proof {
                assert(up@.drop_last() =~= upper);
                assert(down@.drop_last() =~= lower);
                assert(self.gradient_there::<F>(
                    shifted::<F>(theta@, (i + 1) - 1, lit(E_M4), true),
                    up@.last()@,
                    mid,
                    half,
                ));
                assert(self.gradient_there::<F>(
                    shifted::<F>(theta@, (i + 1) - 1, lit(E_M4), false),
                    down@.last()@,
                    half,
                    *counts,
                ));
            }
        }
        let step = |i: usize| -> (v: Double)
            ensures
                v == lit(E_M4),
            { lit(E_M4) };
        let eps: Vec<Double> = fill_vec(d, step);
        Ok(differences::<F>(d, &up, &down, &eps, Ghost(|i: int| lit(E_M4))))
    }
}

impl<L: ShapeLoss<K, V>, K: Link, V: VarianceFn, B, P, D: DenseBackend, S: LinearSolver> ShapeAwareEnvelopeScore<
    L,
    K,
    V,
    B,
    P,
    D,
    S,
> {
    /// What the block of the log smoothing parameters is computed from: the Newton
    /// inverse and weights where there are any, else the fit's own.
    pub open spec fn rho_inputs_read<F: Arithmetic>(
        &self,
        fit: GaussianInnerFit<S>,
        family: Family<L, K, V>,
        rho: Seq<Double>,
        q: RhoHessInputs,
    ) -> bool {
        let x = self.data.x_design@;
        let p = self.data.x_design.cols as nat;
        &&& q.a_inv.square(p)
        &&& q.xtwx.square(p)
        &&& q.dev_grad@.len() == p
        &&& exists|tk: Option<TkKKTInputs>| #[trigger]
            self.tk_read::<F>(fit, family, rho, tk) && match tk {
                Some(t) => q.a_inv == t.a_newton_inv && exists|w: Seq<Double>| #[trigger]
                    kept_weights_read::<F, K, V>(
                        family.link,
                        family.variance,
                        self.data.y@,
                        fit.mu@,
                        w,
                    ) && q.xtwx@ == build_xtwx_of::<F>(x, p, w) && q.dev_grad@ == dev_grad_of::<F>(
                        x,
                        p,
                        w,
                        fit.working_response@,
                        fit.beta@,
                    ),
                None => call_ensures(S::invert, (&fit.a_factor,), q.a_inv) && q.xtwx@ == build_xtwx_of::<
                    F,
                >(x, p, fit.working_weights@) && q.dev_grad@ == dev_grad_of::<F>(
                    x,
                    p,
                    fit.working_weights@,
                    fit.working_response@,
                    fit.beta@,
                ),
            }
    }

    fn rho_inputs<F: Arithmetic>(&self, fit: &GaussianInnerFit<S>, family: &Family<L, K, V>, rho: &Vec<Double>) -> (r: Result<
        RhoHessInputs,
        GamrsError,
    >)
        requires
            lawful::<F>(),
            self.wf(),
            self.sized(*fit),
            rho@.len() == self.terms(),
        ensures
            match r {
                Ok(q) => self.rho_inputs_read::<F>(*fit, *family, rho@, q),
                Err(e) => misfit(e) && self.inverse_misread::<F>(*fit, *family, rho@),
            },
    {
        let tk: Option<TkKKTInputs> = self.lazy_tk::<F>(fit, family, rho);
        let ghost answered = tk;
        assert(self.tk_read::<F>(*fit, *family, rho@, answered));
        match tk {
            Some(t) => {
                let w: Vec<Double> = kept_weights::<F, K, V>(
                    &family.link,
                    &family.variance,
                    &self.data.y,
                    &fit.mu,
                );
                let xtwx: Matrix = build_xtwx::<F>(&self.data.x_design, &w);
                let dev_grad: Vec<Double> = compute_dev_grad_beta_working_rss::<F>(
                    &self.data.x_design,
                    &w,
                    &fit.working_response,
                    &fit.beta,
                );
                Ok(RhoHessInputs { a_inv: t.a_newton_inv, xtwx, dev_grad })
            },
            None => {
                let a_inv: Matrix = fit.a_inv();
                if !is_square(&a_inv, fit.p) {
                    return Err(GamrsError::InvalidParameter("fit has the wrong size".to_owned()));
                }
                let xtwx: Matrix = build_xtwx::<F>(&self.data.x_design, &fit.working_weights);
                let dev_grad: Vec<Double> = compute_dev_grad_beta_working_rss::<F>(
                    &self.data.x_design,
                    &fit.working_weights,
                    &fit.working_response,
                    &fit.beta,
                );
                Ok(RhoHessInputs { a_inv, xtwx, dev_grad })
            },
        }
    }

    /// The block of the log smoothing parameters, for some reading of the fit.
    pub open spec fn rho_block<F: Arithmetic>(
        &self,
        fit: GaussianInnerFit<S>,
        family: Family<L, K, V>,
        rho: Seq<Double>,
        sigma2: Double,
        h: Seq<Seq<Double>>,
    ) -> bool {
        exists|q: RhoHessInputs, lambda: Vec<Double>|
            lambda@ == lambdas_of::<F>(rho) && #[trigger] self.rho_inputs_read::<F>(fit, family, rho, q)
                && h == #[trigger] self.rho_ctx(&fit, &q, &lambda, sigma2).hessian::<F>()
    }

    /// The inputs of the block at a reading.
    pub open spec fn rho_ctx<'a>(
        &'a self,
        fit: &'a GaussianInnerFit<S>,
        q: &'a RhoHessInputs,
        lambda: &'a Vec<Double>,
        sigma2: Double,
    ) -> HessIftCtx<'a> {
        HessIftCtx {
            s_list: &self.data.s_list,
            lambda,
            beta: &fit.beta,
            a_inv: &q.a_inv,
            xtwx: &q.xtwx,
            sigma2,
            dev_grad_beta: &q.dev_grad,
        }
    }

    /// The block of the log smoothing parameters, and what it was computed from.
    pub fn rho_hessian<F: Arithmetic>(
        &self,
        fit: &GaussianInnerFit<S>,
        family: &Family<L, K, V>,
        rho: &Vec<Double>,
        lambda: &Vec<Double>,
        sigma2: Double,
    ) -> (r: Result<(Matrix, RhoHessInputs), GamrsError>)
        requires
            lawful::<F>(),
            self.wf(),
            self.sized(*fit),
            rho@.len() == self.terms(),
            lambda@ == lambdas_of::<F>(rho@),
        ensures
            match r {
                Ok(out) => out.0.square(self.terms()) && self.rho_inputs_read::<F>(
                    *fit,
                    *family,
                    rho@,
                    out.1,
                ) && out.0@ == self.rho_ctx(fit, &out.1, lambda, sigma2).hessian::<F>(),
                Err(e) => misfit(e) && self.inverse_misread::<F>(*fit, *family, rho@),
            },
    {
        let q: RhoHessInputs = match self.rho_inputs::<F>(fit, family, rho) {
            Ok(q) => q,
            Err(e) => return Err(e),
        };
        let h: Matrix = {
            let ctx: HessIftCtx = HessIftCtx {
                s_list: &self.data.s_list,
                lambda,
                beta: &fit.beta,
                a_inv: &q.a_inv,
                xtwx: &q.xtwx,
                sigma2,
                dev_grad_beta: &q.dev_grad,
            };
            assert(ctx == self.rho_ctx(fit, &q, lambda, sigma2));
            hess_ift_rho::<F>(&ctx)
        };
        Ok((h, q))
    }

    /// Gradients with the coefficients held fixed at the points shifted by 1e-4
    /// along the first `n` shape parameters.
    pub open spec fn frozen_sides<F: Arithmetic>(
        &self,
        theta: Seq<Double>,
        fit: GaussianInnerFit<S>,
        c: FrozenBetaCtx,
        up: bool,
        n: nat,
        g: Seq<Vec<Double>>,
    ) -> bool where B: ShapeInnerBuilder<F, D, S, L, K, V>, P: Profile<F, L> {
        &&& g.len() == n
        &&& forall|k: int|
            0 <= k < n ==> (#[trigger] g[k])@.len() == self.axes() && self.frozen_there::<F>(
                shifted::<F>(theta, self.terms() + k, lit(E_M4), up),
                fit,
                c,
                g[k]@,
            )
    }

    /// The joint Hessian from the block of the log smoothing parameters and frozen
    /// differences along the shape parameters.
    pub open spec fn ift_hessian<F: Arithmetic>(
        &self,
        theta: Seq<Double>,
        fit: GaussianInnerFit<S>,
        family: Family<L, K, V>,
        c: FrozenBetaCtx,
        h: Seq<Seq<Double>>,
    ) -> bool where B: ShapeInnerBuilder<F, D, S, L, K, V>, P: Profile<F, L> {
        exists|block: Seq<Seq<Double>>, up: Seq<Vec<Double>>, down: Seq<Vec<Double>>|
            self.rho_block_there::<F>(theta, fit, family, block) && self.frozen_sides::<F>(
                theta,
                fit,
                c,
                true,
                self.n_shape as nat,
                up,
            ) && self.frozen_sides::<F>(theta, fit, c, false, self.n_shape as nat, down) && h
                == #[trigger] bordered_of::<F>(self.terms(), self.axes(), block, up, down, lit(E_M4))
    }

    /// The block of the log smoothing parameters at the dispersion of the fit.
    pub open spec fn rho_block_there<F: Arithmetic>(
        &self,
        theta: Seq<Double>,
        fit: GaussianInnerFit<S>,
        family: Family<L, K, V>,
        h: Seq<Seq<Double>>,
    ) -> bool where P: Profile<F, L> {
        exists|sigma2: Double|
            self.phi_read::<F>(
                fit,
                family,
                self.bsb_total_of::<F>(self.rho_of(theta), fit.beta@),
                one(),
                sigma2,
            ) && #[trigger] self.rho_block::<F>(fit, family, self.rho_of(theta), sigma2, h)
    }

    /// The block of the log smoothing parameters or a frozen gradient could not be
    /// had.
    pub open spec fn ift_fails<F: Arithmetic>(
        &self,
        theta: Seq<Double>,
        fit: GaussianInnerFit<S>,
        family: Family<L, K, V>,
        c: FrozenBetaCtx,
        e: GamrsError,
    ) -> bool where P: Profile<F, L> {
        ||| misfit(e) && self.inverse_misread::<F>(fit, family, self.rho_of(theta))
        ||| exists|k: int, up: bool|
            0 <= k < self.n_shape && #[trigger] self.frozen_side_fails::<F>(theta, fit, c, k, up, e)
    }

    /// The gradient with the coefficients held fixed at the point shifted by 1e-4
    /// along a shape parameter could not be had.
    pub open spec fn frozen_side_fails<F: Arithmetic>(
        &self,
        theta: Seq<Double>,
        fit: GaussianInnerFit<S>,
        c: FrozenBetaCtx,
        k: int,
        up: bool,
        e: GamrsError,
    ) -> bool where P: Profile<F, L> {
        self.frozen_fails::<F>(shifted::<F>(theta, self.terms() + k, lit(E_M4), up), fit, c, e)
    }

    /// The joint Hessian from the block of the log smoothing parameters and frozen
    /// differences along the shape parameters.
    pub fn hess_via_ift_analytic<F: Arithmetic>(
        &self,
        theta: &Vec<Double>,
        fit: &GaussianInnerFit<S>,
        family: &Family<L, K, V>,
        c: &FrozenBetaCtx,
    ) -> (r: Result<Matrix, GamrsError>) where
        B: ShapeInnerBuilder<F, D, S, L, K, V>,
        P: Profile<F, L>,

        requires
            lawful::<F>(),
            self.wf(),
            self.sized(*fit),
            c.fits(self.terms()),
            theta@.len() == self.axes(),
        ensures
            match r {
                Ok(h) => h.square(self.axes()) && self.ift_hessian::<F>(theta@, *fit, *family, *c, h@),
                Err(e) => self.ift_fails::<F>(theta@, *fit, *family, *c, e),
            },
    {
        let m: usize = self.data.s_list.len();
        let d: usize = theta.len();
        let rho: Vec<Double> = head(theta, m);
        let lambda: Vec<Double> = lambdas::<F>(&rho);
        let bsb: Vec<Double> = self.penalties::<F>(&fit.beta);
        let bsb_total: Double = dot::<F>(&lambda, &bsb);
        let sigma2: Double = self.phi_at::<F>(fit, family, bsb_total, one());
        let (block, q) = match self.rho_hessian::<F>(fit, family, &rho, &lambda, sigma2) {
            Ok(out) => out,
            Err(e) => return Err(e),
        };
        assert(self.rho_of(theta@) == rho@);
        assert(self.rho_block::<F>(*fit, *family, self.rho_of(theta@), sigma2, block@));
        assert(self.rho_block_there::<F>(theta@, *fit, *family, block@));
        let mut up: Vec<Vec<Double>> = Vec::new();
        let mut down: Vec<Vec<Double>> = Vec::new();
        for k in 0..self.n_shape
            invariant
                lawful::<F>(),
                self.wf(),
                self.sized(*fit),
                c.fits(self.terms()),
                m == self.terms(),
                theta@.len() == self.axes(),
                self.frozen_sides::<F>(theta@, *fit, *c, true, k as nat, up@),
                self.frozen_sides::<F>(theta@, *fit, *c, false, k as nat, down@),
        {
            let tp: Vec<Double> = shift::<F>(theta, m + k, lit(E_M4), true);
            let gp: Vec<Double> = match self.eval_grad_frozen_beta::<F>(&tp, fit, c) {
                Ok(g) => g,
                Err(e) => {
                    assert(self.frozen_side_fails::<F>(theta@, *fit, *c, k as int, true, e));
                    return Err(e);
                },
            };
            let tm: Vec<Double> = shift::<F>(theta, m + k, lit(E_M4), false);
            let gm: Vec<Double> = match self.eval_grad_frozen_beta::<F>(&tm, fit, c) {
                Ok(g) => g,
                Err(e) => {
                    assert(self.frozen_side_fails::<F>(theta@, *fit, *c, k as int, false, e));
                    return Err(e);
                },
            };
            up.push(gp);
            down.push(gm);
        }
        let h: Matrix = bordered::<F>(m, d, &block, &up, &down, lit(E_M4));
        assert(h@ == bordered_of::<F>(self.terms(), self.axes(), block@, up@, down@, lit(E_M4)));
        Ok(h)
    }

    /// What the second-order Hessian is computed from beyond the fit: an inverse,
    /// the derivatives of the deviance along the mean, and those of the saturated
    /// log-likelihood.
    pub open spec fn level2_read<F: Arithmetic>(
        &self,
        fit: GaussianInnerFit<S>,
        family: Family<L, K, V>,
        rho: Seq<Double>,
        q: Level2Reading,
    ) -> bool {
        &&& q.lambda@ == lambdas_of::<F>(rho)
        &&& self.loss_slopes_read::<F>(fit.mu@, q.dmu@, q.dmu2@)
        &&& exists|tk: Option<TkKKTInputs>| #[trigger]
            self.tk_read::<F>(fit, family, rho, tk) && match tk {
                Some(t) => q.a_inv == t.a_newton_inv,
                None => call_ensures(S::invert, (&fit.a_factor,), q.a_inv),
            }
        &&& exists|prior: Vec<Double>|
            prior@ == self.prior() && #[trigger] call_ensures(
                <L as ShapeLoss<K, V>>::sum_saturated_log_lik_d2theta,
                (&family.loss, &self.data.y, one(), &prior),
                q.sum_d2ls,
            )
    }

    /// The inputs of the second-order Hessian at a reading.
    pub open spec fn level2_ctx<'a>(
        &'a self,
        fit: &'a GaussianInnerFit<S>,
        lv1: &'a Level1ShapeDerivs,
        lv2: &'a Level2ShapeDerivs,
        q: &'a Level2Reading,
    ) -> Level2Ctx<'a> {
        Level2Ctx {
            x: &self.data.x_design,
            s_list: &self.data.s_list,
            lambda: &q.lambda,
            beta: &fit.beta,
            a_inv: &q.a_inv,
            lv1,
            lv2,
            dmu: &q.dmu,
            dmu2: &q.dmu2,
            sum_d2ls: &q.sum_d2ls,
            n_shape: self.n_shape,
        }
    }

    /// The joint Hessian from second derivatives, for some reading of the fit.
    pub open spec fn level2_hessian<F: Arithmetic>(
        &self,
        fit: GaussianInnerFit<S>,
        family: Family<L, K, V>,
        rho: Seq<Double>,
        lv1: Level1ShapeDerivs,
        lv2: Level2ShapeDerivs,
        h: Seq<Seq<Double>>,
    ) -> bool {
        exists|q: Level2Reading| #[trigger]
            self.level2_read::<F>(fit, family, rho, q) && self.level2_ctx(&fit, &lv1, &lv2, &q).wf() && h
                == self.level2_ctx(&fit, &lv1, &lv2, &q).hessian::<F>()
    }

    /// Something that was answered for the second-order Hessian has the wrong
    /// size.
    pub open spec fn level2_misread<F: Arithmetic>(
        &self,
        fit: GaussianInnerFit<S>,
        family: Family<L, K, V>,
        rho: Seq<Double>,
        lv1: Level1ShapeDerivs,
        lv2: Level2ShapeDerivs,
    ) -> bool {
        let n = self.data.y@.len();
        ||| !lv1.fits(n, self.n_shape as nat)
        ||| !lv2.fits(n, self.n_shape as nat)
        ||| self.inverse_misread::<F>(fit, family, rho)
        ||| exists|prior: Vec<Double>, v: Vec<Double>|
            prior@ == self.prior() && v@.len() != pairs(self.n_shape as int) && #[trigger] call_ensures(
                <L as ShapeLoss<K, V>>::sum_saturated_log_lik_d2theta,
                (&family.loss, &self.data.y, one(), &prior),
                v,
            )
    }

    /// The joint Hessian from second derivatives of the deviance. It is that of an
    /// identity link.
    pub fn hess_via_ift_level2<F: Arithmetic>(
        &self,
        theta: &Vec<Double>,
        fit: &GaussianInnerFit<S>,
        family: &Family<L, K, V>,
        lv1: &Level1ShapeDerivs,
        lv2: &Level2ShapeDerivs,
    ) -> (r: Result<Matrix, GamrsError>)
        requires
            lawful::<F>(),
            self.wf(),
            self.sized(*fit),
            theta@.len() == self.axes(),
        ensures
            match r {
                Ok(h) => h.square(self.axes()) && self.level2_hessian::<F>(
                    *fit,
                    *family,
                    self.rho_of(theta@),
                    *lv1,
                    *lv2,
                    h@,
                ),
                Err(e) => misfit(e) && self.level2_misread::<F>(
                    *fit,
                    *family,
                    self.rho_of(theta@),
                    *lv1,
                    *lv2,
                ),
            },
    {
        let n: usize = self.data.y.len();
        let m: usize = self.n_shape;
        if !lv1_ok(lv1, n, m) || !lv2_ok(lv2, n, m) {
            return Err(GamrsError::InvalidParameter("fit has the wrong size".to_owned()));
        }
        let rho: Vec<Double> = head(theta, self.data.s_list.len());
        let lambda: Vec<Double> = lambdas::<F>(&rho);
        let tk: Option<TkKKTInputs> = self.lazy_tk::<F>(fit, family, &rho);
        let ghost answered = tk;
        assert(self.tk_read::<F>(*fit, *family, rho@, answered));
        let a_inv: Matrix = match tk {
            Some(t) => t.a_newton_inv,
            None => {
                let a: Matrix = fit.a_inv();
                if !is_square(&a, fit.p) {
                    return Err(GamrsError::InvalidParameter("fit has the wrong size".to_owned()));
                }
                a
            },
        };
        let (dmu, dmu2) = self.loss_slopes::<F>(&fit.mu);
        let prior: Vec<Double> = self.prior_weights();
        let sum_d2ls: Vec<Double> = family.loss.sum_saturated_log_lik_d2theta(
            &self.data.y,
            one(),
            &prior,
        );
        if sum_d2ls.len() != lv2.dth2.cols {
            return Err(GamrsError::InvalidParameter("fit has the wrong size".to_owned()));
        }
        let q: Level2Reading = Level2Reading { lambda, a_inv, dmu, dmu2, sum_d2ls };
        assert(self.level2_read::<F>(*fit, *family, rho@, q));
        let ctx: Level2Ctx = Level2Ctx {
            x: &self.data.x_design,
            s_list: &self.data.s_list,
            lambda: &q.lambda,
            beta: &fit.beta,
            a_inv: &q.a_inv,
            lv1,
            lv2,
            dmu: &q.dmu,
            dmu2: &q.dmu2,
            sum_d2ls: &q.sum_d2ls,
            n_shape: self.n_shape,
        };
        assert(ctx == self.level2_ctx(fit, lv1, lv2, &q));
        proof {
            law_number_of_pairs(self.n_shape as int);
        }
        assert(ctx.wf());
        Ok(ctx.compute::<F>())
    }
}

/// What was read about a fit for the second-order Hessian.
pub struct Level2Reading {
    /// Smoothing parameters.
    pub lambda: Vec<Double>,
    /// `A^-1`.
    pub a_inv: Matrix,
    /// Weighted derivative of each deviance along the mean.
    pub dmu: Vec<Double>,
    /// Weighted second derivative of each deviance along the mean.
    pub dmu2: Vec<Double>,
    /// Second derivatives of the saturated log-likelihood.
    pub sum_d2ls: Vec<Double>,
}

/// Whether second derivatives have the sizes they should have.
pub fn lv2_ok(l: &Level2ShapeDerivs, n: usize, m: usize) -> (b: bool)
    ensures
        b == l.fits(n as nat, m as nat),
{
    match number_of_pairs(m) {
        Some(k) => is_shape(&l.dth2, n, k) && is_shape(&l.dmu_th2, n, k) && is_shape(&l.dmu2_th2, n, k)
            && is_shape(&l.dmu3_th, n, m) && l.dmu4.len() == n,
        None => false,
    }
}

} // verus!
