//! The Hessian of the score along the log smoothing parameters, from implicit
//! derivatives of the coefficients: no further inner fit is needed.

use vstd::prelude::*;

use crate::arith::{lawful, minus, over, plus, times, total, Arithmetic};
use crate::dense::{
    dot, dot_of, gram, gram_of, mat_mul, mat_mul_of, mat_t_vec, mat_t_vec_of, mat_vec, mat_vec_of,
    scaled_rows, scaled_rows_of, sum_over, times_vec, times_vec_of, trace_product, trace_product_of,
};
use crate::double::{lit, two, zero, Double, MINUS_TWO};
use crate::inner::penalties_fit;
use crate::matrix::{fill_vec, grid, symmetric, Matrix};

verus! {

/// What the Hessian is computed from.
pub struct HessIftCtx<'a> {
    /// One penalty per smooth term.
    pub s_list: &'a Vec<Matrix>,
    /// Smoothing parameters.
    pub lambda: &'a Vec<Double>,
    /// Coefficients.
    pub beta: &'a Vec<Double>,
    /// `A^-1`.
    pub a_inv: &'a Matrix,
    /// `X'WX`.
    pub xtwx: &'a Matrix,
    /// Dispersion.
    pub sigma2: Double,
    /// Derivative of the deviance along the coefficients.
    pub dev_grad_beta: &'a Vec<Double>,
}

/// `S_k b`.
pub open spec fn s_beta_of<F: Arithmetic>(s_list: Seq<Matrix>, beta: Seq<Double>, k: int) -> Seq<Double> {
    mat_vec_of::<F>(s_list[k]@, beta)
}

/// The derivative of the coefficients along parameter `k`:
/// `-lambda_k A^-1 S_k b`.
pub open spec fn b1_of<F: Arithmetic>(
    s_list: Seq<Matrix>,
    lambda: Seq<Double>,
    a_inv: Seq<Seq<Double>>,
    beta: Seq<Double>,
    k: int,
) -> Seq<Double> {
    times_vec_of::<F>(
        lambda[k].neg_spec(),
        mat_vec_of::<F>(a_inv, s_beta_of::<F>(s_list, beta, k)),
    )
}

/// The derivative of the coefficients along parameter `k`.
pub fn b1_column<F: Arithmetic>(
    s_list: &Vec<Matrix>,
    lambda: &Vec<Double>,
    a_inv: &Matrix,
    beta: &Vec<Double>,
    k: usize,
) -> (r: Vec<Double>)
    requires
        lawful::<F>(),
        penalties_fit(s_list@, beta@.len()),
        lambda@.len() == s_list@.len(),
        a_inv.square(beta@.len()),
        k < s_list@.len(),
    ensures
        r@ == b1_of::<F>(s_list@, lambda@, a_inv@, beta@, k as int),
        r@.len() == beta@.len(),
{
    assert(s_list@[k as int].square(beta@.len()));
    let sb: Vec<Double> = mat_vec::<F>(&s_list[k], beta);
    let asb: Vec<Double> = mat_vec::<F>(a_inv, &sb);
    times_vec::<F>(lambda[k].neg(), &asb)
}

impl<'a> HessIftCtx<'a> {
    /// The shapes agree.
    pub open spec fn wf(&self) -> bool {
        &&& penalties_fit(self.s_list@, self.beta@.len())
        &&& self.lambda@.len() == self.s_list@.len()
        &&& self.a_inv.square(self.beta@.len())
        &&& self.xtwx.square(self.beta@.len())
        &&& self.dev_grad_beta@.len() == self.beta@.len()
    }

    /// `S_k b`.
    pub open spec fn s_beta<F: Arithmetic>(&self, k: int) -> Seq<Double> {
        s_beta_of::<F>(self.s_list@, self.beta@, k)
    }

    /// The first derivative of the coefficients along parameter `k`.
    pub open spec fn b1<F: Arithmetic>(&self, k: int) -> Seq<Double> {
        b1_of::<F>(self.s_list@, self.lambda@, self.a_inv@, self.beta@, k)
    }

    /// `sum_j lambda_j S_j b`.
    pub open spec fn sum_lambda_s_beta<F: Arithmetic>(&self) -> Seq<Double> {
        Seq::new(
            self.beta@.len(),
            |r: int|
                total::<F>(
                    |j: int| times::<F>(self.lambda@[j], self.s_beta::<F>(j)[r]),
                    self.lambda@.len(),
                ),
        )
    }

    /// `A^-1 S_j`.
    pub open spec fn ainv_s<F: Arithmetic>(&self, j: int) -> Seq<Seq<Double>> {
        mat_mul_of::<F>(self.a_inv@, self.s_list@[j]@, self.beta@.len())
    }

    /// `tr(A^-1 S_j)`.
    pub open spec fn tr_a_s<F: Arithmetic>(&self, j: int) -> Double {
        total::<F>(|r: int| self.ainv_s::<F>(j)[r][r], self.beta@.len())
    }

    /// `X'WX b1_k`.
    pub open spec fn xtwx_b1<F: Arithmetic>(&self, k: int) -> Seq<Double> {
        mat_vec_of::<F>(self.xtwx@, self.b1::<F>(k))
    }

    /// The right-hand side of the second derivative of the coefficients:
    /// `-(lambda_j S_j b1_k + lambda_k S_k b1_j)`, less `lambda_k S_k b` on the
    /// diagonal.
    pub open spec fn b2_rhs<F: Arithmetic>(&self, k: int, j: int) -> Seq<Double> {
        Seq::new(
            self.beta@.len(),
            |r: int|
                {
                    let cross = plus::<F>(
                        times::<F>(
                            self.lambda@[j],
                            mat_vec_of::<F>(self.s_list@[j]@, self.b1::<F>(k))[r],
                        ),
                        times::<F>(
                            self.lambda@[k],
                            mat_vec_of::<F>(self.s_list@[k]@, self.b1::<F>(j))[r],
                        ),
                    ).neg_spec();
                    if k == j {
                        minus::<F>(cross, times::<F>(self.lambda@[k], self.s_beta::<F>(k)[r]))
                    } else {
                        cross
                    }
                },
        )
    }

    /// The second derivative of the coefficients along parameters `k` and `j`.
    pub open spec fn b2<F: Arithmetic>(&self, k: int, j: int) -> Seq<Double> {
        mat_vec_of::<F>(self.a_inv@, self.b2_rhs::<F>(k, j))
    }

    /// The curvature of the penalised deviance along parameters `k` and `j`.
    pub open spec fn d2<F: Arithmetic>(&self, k: int, j: int) -> Double {
        let lk = self.lambda@[k];
        let lj = self.lambda@[j];
        let d2dev = dot_of::<F>(
            self.b1::<F>(j),
            times_vec_of::<F>(two(), self.xtwx_b1::<F>(k)),
        );
        let dev_b2 = dot_of::<F>(self.dev_grad_beta@, self.b2::<F>(k, j));
        let kron = if k == j {
            times::<F>(lk, dot_of::<F>(self.beta@, self.s_beta::<F>(k)))
        } else {
            zero()
        };
        let lk_term = times::<F>(
            dot_of::<F>(self.s_beta::<F>(k), self.b1::<F>(j)),
            times::<F>(two(), lk),
        );
        let lj_term = times::<F>(
            dot_of::<F>(self.s_beta::<F>(j), self.b1::<F>(k)),
            times::<F>(two(), lj),
        );
        let through_a = dot_of::<F>(
            self.b1::<F>(j),
            times_vec_of::<F>(lk.neg_spec(), self.s_beta::<F>(k)),
        );
        let sls = times::<F>(
            two(),
            minus::<F>(through_a, dot_of::<F>(self.b1::<F>(j), self.xtwx_b1::<F>(k))),
        );
        let sls_b2 = times::<F>(
            dot_of::<F>(self.sum_lambda_s_beta::<F>(), self.b2::<F>(k, j)),
            two(),
        );
        plus::<F>(
            plus::<F>(
                plus::<F>(
                    plus::<F>(plus::<F>(plus::<F>(d2dev, dev_b2), kron), lk_term),
                    lj_term,
                ),
                sls,
            ),
            sls_b2,
        )
    }

    /// The curvature of the log determinant along parameters `k` and `j`.
    pub open spec fn det2<F: Arithmetic>(&self, k: int, j: int) -> Double {
        let lk = self.lambda@[k];
        let lj = self.lambda@[j];
        let cross = trace_product_of::<F>(self.ainv_s::<F>(k), self.ainv_s::<F>(j));
        if k == j {
            minus::<F>(
                times::<F>(lk, self.tr_a_s::<F>(k)),
                times::<F>(times::<F>(lk, lj), cross),
            )
        } else {
            times::<F>(times::<F>(lk.neg_spec(), lj), cross)
        }
    }

    /// The Hessian's entry for `k <= j`: `d2 / (2 sigma2) + det2 / 2`.
    pub open spec fn entry<F: Arithmetic>(&self, k: int, j: int) -> Double {
        plus::<F>(
            over::<F>(self.d2::<F>(k, j), times::<F>(two(), self.sigma2)),
            over::<F>(self.det2::<F>(k, j), two()),
        )
    }

    /// The Hessian: the entries with `k <= j`, mirrored.
    pub open spec fn hessian<F: Arithmetic>(&self) -> Seq<Seq<Double>> {
        mirrored(self.lambda@.len(), |k: int, j: int| self.entry::<F>(k, j))
    }

    fn sum_penalties<F: Arithmetic>(&self, s_beta: &Vec<Vec<Double>>) -> (r: Vec<Double>)
        requires
            lawful::<F>(),
            self.wf(),
            s_beta@.len() == self.lambda@.len(),
            forall|k: int|
                0 <= k < s_beta@.len() ==> (#[trigger] s_beta@[k])@ == self.s_beta::<F>(k),
        ensures
            r@ == self.sum_lambda_s_beta::<F>(),
    {
        let m: usize = self.lambda.len();
        let p: usize = self.beta.len();
        let entry = |i: usize| -> (v: Double)
            requires
                i < p,
            ensures
                v == total::<F>(
                    |j: int| times::<F>(self.lambda@[j], self.s_beta::<F>(j)[i as int]),
                    self.lambda@.len(),
                ),
            {
                let mut acc: Double = zero();
                for j in 0..m
                    invariant
                        lawful::<F>(),
                        self.wf(),
                        m == self.lambda@.len(),
                        i < p,
                        p == self.beta@.len(),
                        s_beta@.len() == self.lambda@.len(),
                        forall|k: int|
                            0 <= k < s_beta@.len() ==> (#[trigger] s_beta@[k])@ == self.s_beta::<F>(k),
                        acc == total::<F>(
                            |j: int| times::<F>(self.lambda@[j], self.s_beta::<F>(j)[i as int]),
                            j as nat,
                        ),
                {
                    assert(s_beta@[j as int]@ == self.s_beta::<F>(j as int));
                    assert(self.s_list@[j as int].square(self.beta@.len()));
                    acc = plus::<F>(acc, times::<F>(self.lambda[j], s_beta[j][i]));
                }
                acc
            };
        let r: Vec<Double> = fill_vec(p, entry);
        assert(r@ =~= self.sum_lambda_s_beta::<F>());
        r
    }

    fn second<F: Arithmetic>(&self, b1: &Vec<Vec<Double>>, s_beta: &Vec<Vec<Double>>, k: usize, j: usize) -> (r: Vec<
        Double,
    >)
        requires
            lawful::<F>(),
            self.wf(),
            b1@.len() == self.lambda@.len(),
            s_beta@.len() == self.lambda@.len(),
            forall|i: int| 0 <= i < b1@.len() ==> (#[trigger] b1@[i])@ == self.b1::<F>(i),
            forall|i: int| 0 <= i < s_beta@.len() ==> (#[trigger] s_beta@[i])@ == self.s_beta::<F>(i),
            k < self.lambda@.len(),
            j < self.lambda@.len(),
        ensures
            r@ == self.b2::<F>(k as int, j as int),
            r@.len() == self.beta@.len(),
    {
        let p: usize = self.beta.len();
        assert(self.s_list@[k as int].square(self.beta@.len()));
        assert(self.s_list@[j as int].square(self.beta@.len()));
        assert(b1@[k as int]@ == self.b1::<F>(k as int));
        assert(b1@[j as int]@ == self.b1::<F>(j as int));
        assert(s_beta@[k as int]@ == self.s_beta::<F>(k as int));
        let sj_b1k: Vec<Double> = mat_vec::<F>(&self.s_list[j], &b1[k]);
        let sk_b1j: Vec<Double> = mat_vec::<F>(&self.s_list[k], &b1[j]);
        let lj: Double = self.lambda[j];
        let lk: Double = self.lambda[k];
        let entry = |r: usize| -> (v: Double)
            requires
                r < p,
            ensures
                v == self.b2_rhs::<F>(k as int, j as int)[r as int],
            {
                let cross: Double = plus::<F>(
                    times::<F>(lj, sj_b1k[r]),
                    times::<F>(lk, sk_b1j[r]),
                ).neg();
                if k == j {
                    minus::<F>(cross, times::<F>(lk, s_beta[k][r]))
                } else {
                    cross
                }
            };
        let rhs: Vec<Double> = fill_vec(p, entry);
        assert(rhs@ =~= self.b2_rhs::<F>(k as int, j as int));
        mat_vec::<F>(self.a_inv, &rhs)
    }

    fn diagonal_sum<F: Arithmetic>(&self, m: &Matrix) -> (r: Double)
        requires
            lawful::<F>(),
            m.square(self.beta@.len()),
        ensures
            r == total::<F>(|i: int| m@[i][i], self.beta@.len()),
    {
        let term = |i: usize| -> (v: Double)
            requires
                i < self.beta@.len(),
            ensures
                v == m@[i as int][i as int],
            { m.get(i, i) };
        sum_over::<F, _>(self.beta.len(), term, Ghost(|i: int| m@[i][i]))
    }
}

/// A symmetric matrix from its entries with `i <= j`.
pub open spec fn mirrored(n: nat, f: spec_fn(int, int) -> Double) -> Seq<Seq<Double>> {
    grid(
        n,
        n,
        |i: int, j: int|
            if i <= j {
                f(i, j)
            } else {
                f(j, i)
            },
    )
}

/// Builds a symmetric matrix from a function that computes its entries with
/// `i <= j`.
pub fn mirror<G: Fn(usize, usize) -> Double>(n: usize, f: G, Ghost(of): Ghost<spec_fn(int, int) -> Double>) -> (r: Matrix)
    requires
        forall|i: usize, j: usize| i <= j < n ==> #[trigger] call_requires(f, (i, j)),
        forall|i: usize, j: usize, v: Double|
            i <= j < n && #[trigger] call_ensures(f, (i, j), v) ==> v == of(i as int, j as int),
    ensures
        r.square(n as nat),
        r@ == mirrored(n as nat, of),
{
    let entry = |i: usize, j: usize| -> (v: Double)
        requires
            i < n,
            j < n,
        ensures
            v == (if i <= j {
                of(i as int, j as int)
            } else {
                of(j as int, i as int)
            }),
        {
            if i <= j {
                f(i, j)
            } else {
                f(j, i)
            }
        };
    let r: Matrix = Matrix::fill(n, n, entry);
    proof {
        r.lemma_is_grid(
            n as nat,
            n as nat,
            |i: int, j: int|
                if i <= j {
                    of(i, j)
                } else {
                    of(j, i)
                },
        );
    }
    r
}

/// The Hessian of the score along the log smoothing parameters at a converged
/// fit.
pub fn hess_ift_rho<F: Arithmetic>(ctx: &HessIftCtx) -> (r: Matrix)
    requires
        lawful::<F>(),
        ctx.wf(),
    ensures
        r.square(ctx.lambda@.len()),
        r@ == ctx.hessian::<F>(),
{
    let m: usize = ctx.lambda.len();
    let p: usize = ctx.beta.len();
    let mut s_beta: Vec<Vec<Double>> = Vec::new();
    let mut b1: Vec<Vec<Double>> = Vec::new();
    let mut ainv_s: Vec<Matrix> = Vec::new();
    let mut tr: Vec<Double> = Vec::new();
    let mut xtwx_b1: Vec<Vec<Double>> = Vec::new();
    for k in 0..m
        invariant
            lawful::<F>(),
            ctx.wf(),
            m == ctx.lambda@.len(),
            p == ctx.beta@.len(),
            s_beta@.len() == k,
            b1@.len() == k,
            ainv_s@.len() == k,
            tr@.len() == k,
            xtwx_b1@.len() == k,
            forall|i: int| 0 <= i < k ==> (#[trigger] s_beta@[i])@ == ctx.s_beta::<F>(i),
            forall|i: int| 0 <= i < k ==> (#[trigger] b1@[i])@ == ctx.b1::<F>(i),
            forall|i: int|
                0 <= i < k ==> (#[trigger] ainv_s@[i])@ == ctx.ainv_s::<F>(i) && ainv_s@[i].square(p as nat),
            forall|i: int| 0 <= i < k ==> #[trigger] tr@[i] == ctx.tr_a_s::<F>(i),
            forall|i: int| 0 <= i < k ==> (#[trigger] xtwx_b1@[i])@ == ctx.xtwx_b1::<F>(i),
    {
        assert(ctx.s_list@[k as int].square(ctx.beta@.len()));
        s_beta.push(mat_vec::<F>(&ctx.s_list[k], ctx.beta));
        let b: Vec<Double> = b1_column::<F>(ctx.s_list, ctx.lambda, ctx.a_inv, ctx.beta, k);
        xtwx_b1.push(mat_vec::<F>(ctx.xtwx, &b));
        b1.push(b);
        let as_k: Matrix = mat_mul::<F>(ctx.a_inv, &ctx.s_list[k]);
        let t: Double = ctx.diagonal_sum::<F>(&as_k);
        assert(t == ctx.tr_a_s::<F>(k as int));
        tr.push(t);
        ainv_s.push(as_k);
    }
    let sum_lsb: Vec<Double> = ctx.sum_penalties::<F>(&s_beta);
    let entry = |k: usize, j: usize| -> (v: Double)
        requires
            k <= j < m,
        ensures
            v == ctx.entry::<F>(k as int, j as int),
        {
            assert(b1@[k as int]@ == ctx.b1::<F>(k as int));
            assert(b1@[j as int]@ == ctx.b1::<F>(j as int));
            assert(s_beta@[k as int]@ == ctx.s_beta::<F>(k as int));
            assert(s_beta@[j as int]@ == ctx.s_beta::<F>(j as int));
            assert(xtwx_b1@[k as int]@ == ctx.xtwx_b1::<F>(k as int));
            assert(ainv_s@[k as int]@ == ctx.ainv_s::<F>(k as int));
            assert(ainv_s@[j as int]@ == ctx.ainv_s::<F>(j as int));
            assert(tr@[k as int] == ctx.tr_a_s::<F>(k as int));
            assert(ctx.s_list@[k as int].square(ctx.beta@.len()));
            assert(ctx.s_list@[j as int].square(ctx.beta@.len()));
            let lk: Double = ctx.lambda[k];
            let lj: Double = ctx.lambda[j];
            let d2dev_b1: Vec<Double> = times_vec::<F>(two(), &xtwx_b1[k]);
            let d2dev: Double = dot::<F>(&b1[j], &d2dev_b1);
            let b2: Vec<Double> = ctx.second::<F>(&b1, &s_beta, k, j);
            let dev_b2: Double = dot::<F>(ctx.dev_grad_beta, &b2);
            let kron: Double = if k == j {
                times::<F>(lk, dot::<F>(ctx.beta, &s_beta[k]))
            } else {
                zero()
            };
            let lk_term: Double = times::<F>(dot::<F>(&s_beta[k], &b1[j]), times::<F>(two(), lk));
            let lj_term: Double = times::<F>(dot::<F>(&s_beta[j], &b1[k]), times::<F>(two(), lj));
            let a_b1k: Vec<Double> = times_vec::<F>(lk.neg(), &s_beta[k]);
            let through_a: Double = dot::<F>(&b1[j], &a_b1k);
            let through_x: Double = dot::<F>(&b1[j], &xtwx_b1[k]);
            let sls: Double = times::<F>(two(), minus::<F>(through_a, through_x));
            let sls_b2: Double = times::<F>(dot::<F>(&sum_lsb, &b2), two());
            let d2: Double = plus::<F>(
                plus::<F>(
                    plus::<F>(
                        plus::<F>(plus::<F>(plus::<F>(d2dev, dev_b2), kron), lk_term),
                        lj_term,
                    ),
                    sls,
                ),
                sls_b2,
            );
            let cross: Double = trace_product::<F>(&ainv_s[k], &ainv_s[j]);
            let det2: Double = if k == j {
                minus::<F>(times::<F>(lk, tr[k]), times::<F>(times::<F>(lk, lj), cross))
            } else {
                times::<F>(times::<F>(lk.neg(), lj), cross)
            };
            plus::<F>(over::<F>(d2, times::<F>(two(), ctx.sigma2)), over::<F>(det2, two()))
        };
    mirror(m, entry, Ghost(|k: int, j: int| ctx.entry::<F>(k, j)))
}

/// `X'WX`.
pub open spec fn build_xtwx_of<F: Arithmetic>(x: Seq<Seq<Double>>, p: nat, w: Seq<Double>) -> Seq<Seq<Double>> {
    gram_of::<F>(x, p, scaled_rows_of::<F>(x, p, w), p)
}

/// Builds `X'WX` from the design and the weights.
pub fn build_xtwx<F: Arithmetic>(x_design: &Matrix, w: &Vec<Double>) -> (r: Matrix)
    requires
        lawful::<F>(),
        x_design.shape(w@.len(), x_design.cols as nat),
    ensures
        r.square(x_design.cols as nat),
        r@ == build_xtwx_of::<F>(x_design@, x_design.cols as nat, w@),
{
    let wx: Matrix = scaled_rows::<F>(x_design, w);
    gram::<F>(x_design, &wx)
}

/// The derivative of the weighted sum of squared working residuals along the
/// coefficients: `X' v` with `v_i = -2 w_i (z_i - (X b)_i)`.
pub open spec fn dev_grad_of<F: Arithmetic>(
    x: Seq<Seq<Double>>,
    p: nat,
    w: Seq<Double>,
    z: Seq<Double>,
    beta: Seq<Double>,
) -> Seq<Double> {
    mat_t_vec_of::<F>(
        x,
        p,
        Seq::new(
            x.len(),
            |i: int|
                times::<F>(
                    times::<F>(lit(MINUS_TWO), w[i]),
                    minus::<F>(z[i], mat_vec_of::<F>(x, beta)[i]),
                ),
        ),
    )
}

/// The derivative of the weighted sum of squared working residuals along the
/// coefficients.
pub fn compute_dev_grad_beta_working_rss<F: Arithmetic>(
    x_design: &Matrix,
    working_weights: &Vec<Double>,
    working_response: &Vec<Double>,
    beta: &Vec<Double>,
) -> (r: Vec<Double>)
    requires
        lawful::<F>(),
        x_design.shape(working_weights@.len(), beta@.len()),
        working_response@.len() == working_weights@.len(),
    ensures
        r@ == dev_grad_of::<F>(x_design@, beta@.len(), working_weights@, working_response@, beta@),
        r@.len() == beta@.len(),
{
    let fitted: Vec<Double> = mat_vec::<F>(x_design, beta);
    let entry = |i: usize| -> (v: Double)
        requires
            i < working_weights@.len(),
        ensures
            v == times::<F>(
                times::<F>(lit(MINUS_TWO), working_weights@[i as int]),
                minus::<F>(working_response@[i as int], fitted@[i as int]),
            ),
        {
            times::<F>(
                times::<F>(lit(MINUS_TWO), working_weights[i]),
                minus::<F>(working_response[i], fitted[i]),
            )
        };
    let v1: Vec<Double> = fill_vec(working_weights.len(), entry);
    assert(v1@ =~= Seq::new(
        x_design@.len(),
        |i: int|
            times::<F>(
                times::<F>(lit(MINUS_TWO), working_weights@[i]),
                minus::<F>(working_response@[i], mat_vec_of::<F>(x_design@, beta@)[i]),
            ),
    ));
    mat_t_vec::<F>(x_design, &v1)
}

/// A mirrored matrix is symmetric.
pub proof fn law_mirrored_is_symmetric(n: nat, f: spec_fn(int, int) -> Double)
    ensures
        symmetric(mirrored(n, f)),
{
}

} // verus!
