//! Laws of the closed-form Hessians, in exact arithmetic.

use vstd::prelude::*;

use crate::arith::{minus, over, plus, times, total, Arithmetic};
use crate::dense::{dot_of, mat_mul_of, mat_vec_of, times_vec_of, trace_product_of};
use crate::double::{half, lit, two, zero, Double, FOUR, MINUS_HALF, MINUS_TWO};
use crate::exact::{
    lemma_sum_changed, lemma_sum_congruent, lemma_sum_scaled, lemma_sum_zero, lemma_sums_swapped,
    sum, Residues,
};
use crate::score::envelope::{central_of, differences_of, weight_chain_of, AnalyticHessian};
use crate::score::hess_ift::HessIftCtx;
use crate::score::shape_aware::hessian::{mixed_of, second_of};

verus! {

/// A vector stands for numbers, entry by entry.
pub open spec fn vec_at(r: Residues, v: Seq<Double>, f: spec_fn(int) -> int) -> bool {
    forall|i: int| 0 <= i < v.len() ==> r.same(r.at(#[trigger] v[i]), f(i))
}

/// A matrix of `p` columns stands for numbers, entry by entry.
pub open spec fn mat_at(r: Residues, m: Seq<Seq<Double>>, p: nat, f: spec_fn(int, int) -> int) -> bool {
    forall|i: int, j: int|
        0 <= i < m.len() && 0 <= j < p ==> r.same(r.at(#[trigger] m[i][j]), f(i, j))
}

/// The numbers that a vector holds.
pub open spec fn ints(r: Residues, v: Seq<Double>) -> spec_fn(int) -> int {
    |i: int| r.at(v[i])
}

/// The numbers that a matrix holds.
pub open spec fn grid_ints(r: Residues, m: Seq<Seq<Double>>) -> spec_fn(int, int) -> int {
    |i: int, j: int| r.at(m[i][j])
}

/// `A x`.
pub open spec fn apply(a: spec_fn(int, int) -> int, x: spec_fn(int) -> int, n: nat) -> spec_fn(int) -> int {
    |i: int| sum(|k: int| a(i, k) * x(k), n)
}

/// `A B`.
pub open spec fn product(a: spec_fn(int, int) -> int, b: spec_fn(int, int) -> int, n: nat) -> spec_fn(int, int) -> int {
    |i: int, j: int| sum(|k: int| a(i, k) * b(k, j), n)
}

/// `x'y`.
pub open spec fn inner_product(x: spec_fn(int) -> int, y: spec_fn(int) -> int, n: nat) -> int {
    sum(|k: int| x(k) * y(k), n)
}

/// `tr(A B)`.
pub open spec fn trace(a: spec_fn(int, int) -> int, b: spec_fn(int, int) -> int, n: nat) -> int {
    sum(|i: int| sum(|j: int| a(i, j) * b(j, i), n), n)
}

/// Every vector stands for what it holds.
pub proof fn lemma_ints(r: Residues, v: Seq<Double>, m: Seq<Seq<Double>>, p: nat)
    ensures
        vec_at(r, v, ints(r, v)),
        mat_at(r, m, p, grid_ints(r, m)),
{
    assert forall|i: int| 0 <= i < v.len() implies r.same(r.at(#[trigger] v[i]), ints(r, v)(i)) by {
        r.itself(r.at(v[i]));
    }
    assert forall|i: int, j: int| 0 <= i < m.len() && 0 <= j < p implies r.same(
        r.at(#[trigger] m[i][j]),
        grid_ints(r, m)(i, j),
    ) by {
        r.itself(r.at(m[i][j]));
    }
}

/// A dot product, of what its vectors stand for.
pub proof fn lemma_dot_at<F: Arithmetic>(
    r: Residues,
    x: Seq<Double>,
    y: Seq<Double>,
    f: spec_fn(int) -> int,
    g: spec_fn(int) -> int,
)
    requires
        r.exact::<F>(),
        x.len() <= y.len(),
        vec_at(r, x, f),
        vec_at(r, y, g),
    ensures
        r.same(r.at(dot_of::<F>(x, y)), inner_product(f, g, x.len())),
{
    let term = |k: int| times::<F>(x[k], y[k]);
    let h = |k: int| f(k) * g(k);
    assert forall|k: int| 0 <= k < x.len() implies r.same(r.at(#[trigger] term(k)), h(k)) by {
        r.on_times::<F>(x[k], y[k], f(k), g(k));
    }
    r.on_total::<F>(term, h, x.len());
}

/// A matrix applied to a vector, of what they stand for.
pub proof fn lemma_mat_vec_at<F: Arithmetic>(
    r: Residues,
    a: Seq<Seq<Double>>,
    x: Seq<Double>,
    f: spec_fn(int, int) -> int,
    g: spec_fn(int) -> int,
)
    requires
        r.exact::<F>(),
        forall|i: int| 0 <= i < a.len() ==> (#[trigger] a[i]).len() == x.len(),
        mat_at(r, a, x.len(), f),
        vec_at(r, x, g),
    ensures
        vec_at(r, mat_vec_of::<F>(a, x), apply(f, g, x.len())),
{
    assert forall|i: int| 0 <= i < a.len() implies r.same(
        r.at(#[trigger] mat_vec_of::<F>(a, x)[i]),
        apply(f, g, x.len())(i),
    ) by {
        let row = |k: int| f(i, k);
        assert(a[i].len() == x.len());
        assert forall|k: int| 0 <= k < a[i].len() implies r.same(r.at(#[trigger] a[i][k]), row(k)) by {}
        lemma_dot_at::<F>(r, a[i], x, row, g);
        lemma_sum_congruent(|k: int| row(k) * g(k), |k: int| f(i, k) * g(k), x.len());
    }
}

/// A product of matrices, of what they stand for.
pub proof fn lemma_mat_mul_at<F: Arithmetic>(
    r: Residues,
    a: Seq<Seq<Double>>,
    b: Seq<Seq<Double>>,
    q: nat,
    f: spec_fn(int, int) -> int,
    g: spec_fn(int, int) -> int,
)
    requires
        r.exact::<F>(),
        mat_at(r, a, b.len(), f),
        mat_at(r, b, q, g),
    ensures
        mat_at(r, mat_mul_of::<F>(a, b, q), q, product(f, g, b.len())),
{
    assert forall|i: int, j: int| 0 <= i < a.len() && 0 <= j < q implies r.same(
        r.at(#[trigger] mat_mul_of::<F>(a, b, q)[i][j]),
        product(f, g, b.len())(i, j),
    ) by {
        let term = |k: int| times::<F>(a[i][k], b[k][j]);
        let h = |k: int| f(i, k) * g(k, j);
        assert forall|k: int| 0 <= k < b.len() implies r.same(r.at(#[trigger] term(k)), h(k)) by {
            r.on_times::<F>(a[i][k], b[k][j], f(i, k), g(k, j));
        }
        r.on_total::<F>(term, h, b.len());
        assert(mat_mul_of::<F>(a, b, q)[i][j] == total::<F>(term, b.len()));
    }
}

/// A trace of a product, of what the matrices stand for.
pub proof fn lemma_trace_at<F: Arithmetic>(
    r: Residues,
    a: Seq<Seq<Double>>,
    b: Seq<Seq<Double>>,
    f: spec_fn(int, int) -> int,
    g: spec_fn(int, int) -> int,
)
    requires
        r.exact::<F>(),
        b.len() == a.len(),
        mat_at(r, a, a.len(), f),
        mat_at(r, b, a.len(), g),
    ensures
        r.same(r.at(trace_product_of::<F>(a, b)), trace(f, g, a.len())),
{
    let n = a.len();
    let term = |i: int, j: int| times::<F>(a[i][j], b[j][i]);
    let h = |i: int, j: int| f(i, j) * g(j, i);
    assert forall|i: int, j: int| 0 <= i < n && 0 <= j < n implies r.same(
        r.at(#[trigger] term(i, j)),
        h(i, j),
    ) by {
        r.on_times::<F>(a[i][j], b[j][i], f(i, j), g(j, i));
    }
    r.on_total2::<F>(term, h, n, n);
    let u = |i: int| sum(|j: int| h(i, j), n);
    let v = |i: int| sum(|j: int| f(i, j) * g(j, i), n);
    assert forall|i: int| 0 <= i < n implies #[trigger] u(i) == v(i) by {
        lemma_sum_congruent(|j: int| h(i, j), |j: int| f(i, j) * g(j, i), n);
    }
    lemma_sum_congruent(u, v, n);
}

/// `sum_k a_k e_k l_k`, of what the vectors stand for.
pub proof fn lemma_chain_at<F: Arithmetic>(
    r: Residues,
    a: Seq<Double>,
    e: Seq<Double>,
    l: Seq<Double>,
    f: spec_fn(int) -> int,
    g: spec_fn(int) -> int,
    h: spec_fn(int) -> int,
)
    requires
        r.exact::<F>(),
        a.len() <= e.len(),
        a.len() <= l.len(),
        vec_at(r, a, f),
        vec_at(r, e, g),
        vec_at(r, l, h),
    ensures
        r.same(r.at(weight_chain_of::<F>(a, e, l)), sum(|k: int| f(k) * g(k) * h(k), a.len())),
{
    let term = |k: int| times::<F>(times::<F>(a[k], e[k]), l[k]);
    let u = |k: int| f(k) * g(k) * h(k);
    assert forall|k: int| 0 <= k < a.len() implies r.same(r.at(#[trigger] term(k)), u(k)) by {
        r.on_times::<F>(a[k], e[k], f(k), g(k));
        r.on_times::<F>(times::<F>(a[k], e[k]), l[k], f(k) * g(k), h(k));
    }
    r.on_total::<F>(term, u, a.len());
}

/// `S_j b`.
pub open spec fn sb_int(r: Residues, ctx: AnalyticHessian, j: int) -> spec_fn(int) -> int {
    apply(grid_ints(r, ctx.s_list@[j]@), ints(r, ctx.beta@), ctx.beta@.len())
}

/// `A^-1 S_j b`.
pub open spec fn asb_int(r: Residues, ctx: AnalyticHessian, j: int) -> spec_fn(int) -> int {
    apply(grid_ints(r, ctx.hin.a_inv@), sb_int(r, ctx, j), ctx.beta@.len())
}

/// `A^-1 S_j`.
pub open spec fn as_int(r: Residues, ctx: AnalyticHessian, j: int) -> spec_fn(int, int) -> int {
    product(grid_ints(r, ctx.hin.a_inv@), grid_ints(r, ctx.s_list@[j]@), ctx.beta@.len())
}

/// The change of the linear predictor along parameter `i`:
/// `-l_i X A^-1 S_i b`.
pub open spec fn moved_int(r: Residues, ctx: AnalyticHessian, x: Seq<Seq<Double>>, i: int) -> spec_fn(int) -> int {
    let f = apply(grid_ints(r, x), asb_int(r, ctx, i), ctx.beta@.len());
    |k: int| -r.at(ctx.hin.lambda_j@[i]) * f(k)
}

/// The diagonal of `X A^-1 S_j A^-1 X'`.
pub open spec fn lev_int(r: Residues, ctx: AnalyticHessian, x: Seq<Seq<Double>>, j: int) -> spec_fn(int) -> int {
    let p = ctx.beta@.len();
    let m = product(product(grid_ints(r, x), as_int(r, ctx, j), p), grid_ints(r, ctx.hin.a_inv@), p);
    |k: int| sum(|b: int| m(k, b) * r.at(x[k][b]), p)
}

/// `sum_k dw_k moved_ik lev_jk`.
pub open spec fn weight_sum_int(r: Residues, ctx: AnalyticHessian, i: int, j: int) -> int {
    match ctx.chain {
        Some(c) => {
            let (m, l) = (moved_int(r, ctx, c.1@, i), lev_int(r, ctx, c.1@, j));
            sum(|k: int| r.at(c.0@[k]) * m(k) * l(k), c.0@.len())
        },
        None => 0,
    }
}

/// The curvature of `log|A|` along two parameters at fixed weights:
/// `-l_i l_j tr(A^-1 S_i A^-1 S_j)`, and `l_i tr(A^-1 S_i)` on the diagonal.
pub open spec fn trace_curvature(r: Residues, ctx: AnalyticHessian, i: int, j: int) -> int {
    let (li, lj) = (r.at(ctx.hin.lambda_j@[i]), r.at(ctx.hin.lambda_j@[j]));
    -li * lj * trace(as_int(r, ctx, i), as_int(r, ctx, j), ctx.beta@.len()) + if i == j {
        li * r.at(ctx.hin.tr_hinv_s_per_term@[i])
    } else {
        0
    }
}

/// The change of `l_j b'S_j b` along parameter `i`:
/// `-2 l_i l_j b'S_i A^-1 S_j b`, and `l_j b'S_j b` on the diagonal.
pub open spec fn penalty_curvature(r: Residues, ctx: AnalyticHessian, i: int, j: int) -> int {
    let (li, lj) = (r.at(ctx.hin.lambda_j@[i]), r.at(ctx.hin.lambda_j@[j]));
    -2 * li * lj * inner_product(sb_int(r, ctx, i), asb_int(r, ctx, j), ctx.beta@.len()) + if i == j {
        lj * r.at(ctx.hin.bsb_per_term@[j])
    } else {
        0
    }
}

/// The vectors and matrices of the Hessian stand for what they are named after.
proof fn lemma_parts<F: Arithmetic>(r: Residues, ctx: AnalyticHessian, j: int)
    requires
        r.exact::<F>(),
        ctx.wf(),
        0 <= j < ctx.s_list@.len(),
    ensures
        vec_at(r, ctx.s_beta::<F>(j), sb_int(r, ctx, j)),
        vec_at(r, ctx.ainv_s_beta::<F>(j), asb_int(r, ctx, j)),
        mat_at(r, ctx.ainv_s::<F>(j), ctx.beta@.len(), as_int(r, ctx, j)),
{
    let p = ctx.beta@.len();
    let (s, a) = (ctx.s_list@[j]@, ctx.hin.a_inv@);
    assert(ctx.s_list@[j].square(p));
    lemma_ints(r, ctx.beta@, s, p);
    lemma_ints(r, ctx.beta@, a, p);
    lemma_mat_vec_at::<F>(r, s, ctx.beta@, grid_ints(r, s), ints(r, ctx.beta@));
    lemma_mat_vec_at::<F>(r, a, ctx.s_beta::<F>(j), grid_ints(r, a), sb_int(r, ctx, j));
    lemma_mat_mul_at::<F>(r, a, s, p, grid_ints(r, a), grid_ints(r, s));
}

/// The change of the weights, summed, stands for what it is named after.
proof fn lemma_weight_sum<F: Arithmetic>(r: Residues, ctx: AnalyticHessian, i: int, j: int)
    requires
        r.exact::<F>(),
        ctx.wf(),
        ctx.chain is Some,
        0 <= i < ctx.s_list@.len(),
        0 <= j < ctx.s_list@.len(),
    ensures
        r.same(
            r.at(ctx.weight_sum::<F>((ctx.chain->0).0@, (ctx.chain->0).1@, i, j)),
            weight_sum_int(r, ctx, i, j),
        ),
{
    let (dw, x) = ((ctx.chain->0).0@, (ctx.chain->0).1@);
    let p = ctx.beta@.len();
    let a = ctx.hin.a_inv@;
    lemma_parts::<F>(r, ctx, i);
    lemma_parts::<F>(r, ctx, j);
    lemma_ints(r, dw, x, p);
    lemma_ints(r, dw, a, p);
    // The change of the linear predictor.
    let xb = mat_vec_of::<F>(x, ctx.ainv_s_beta::<F>(i));
    let f = apply(grid_ints(r, x), asb_int(r, ctx, i), p);
    lemma_mat_vec_at::<F>(r, x, ctx.ainv_s_beta::<F>(i), grid_ints(r, x), asb_int(r, ctx, i));
    let l = ctx.hin.lambda_j@[i];
    r.itself(r.at(l));
    r.on_neg::<F>(l, r.at(l));
    let xd = ctx.xdbeta::<F>(x, i);
    assert forall|k: int| 0 <= k < xd.len() implies r.same(
        r.at(#[trigger] xd[k]),
        moved_int(r, ctx, x, i)(k),
    ) by {
        assert(r.same(r.at(xb[k]), f(k)));
        r.on_times::<F>(l.neg_spec(), xb[k], -r.at(l), f(k));
    }
    // The leverages.
    let m = ctx.ainv_s::<F>(j);
    let xm = mat_mul_of::<F>(x, m, p);
    lemma_mat_mul_at::<F>(r, x, m, p, grid_ints(r, x), as_int(r, ctx, j));
    let g = product(grid_ints(r, x), as_int(r, ctx, j), p);
    let xmj = mat_mul_of::<F>(xm, a, p);
    lemma_mat_mul_at::<F>(r, xm, a, p, g, grid_ints(r, a));
    let h = product(g, grid_ints(r, a), p);
    let lv = ctx.lev::<F>(x, j);
    assert forall|k: int| 0 <= k < lv.len() implies r.same(
        r.at(#[trigger] lv[k]),
        lev_int(r, ctx, x, j)(k),
    ) by {
        let hk = |b: int| h(k, b);
        assert forall|b: int| 0 <= b < xmj[k].len() implies r.same(r.at(#[trigger] xmj[k][b]), hk(b)) by {}
        assert forall|b: int| 0 <= b < x[k].len() implies r.same(
            r.at(#[trigger] x[k][b]),
            ints(r, x[k])(b),
        ) by {
            r.itself(r.at(x[k][b]));
        }
        lemma_dot_at::<F>(r, xmj[k], x[k], hk, ints(r, x[k]));
        lemma_sum_congruent(
            |b: int| hk(b) * ints(r, x[k])(b),
            |b: int| h(k, b) * r.at(x[k][b]),
            p,
        );
    }
    let (mi, lj) = (moved_int(r, ctx, x, i), lev_int(r, ctx, x, j));
    lemma_chain_at::<F>(r, dw, xd, lv, ints(r, dw), mi, lj);
    lemma_sum_congruent(
        |k: int| ints(r, dw)(k) * mi(k) * lj(k),
        |k: int| r.at(dw[k]) * mi(k) * lj(k),
        dw.len(),
    );
}

/// The closed-form Hessian is the derivative of the gradient: entry `(i, j)` is half
/// the curvature of `log|A|` at fixed weights, the share of the change of the
/// weights, the change of the penalty over `2 s2`, and
/// `-l_j b'S_j b / (2 s2^2) ds2/drho_i`. Stated times `4 s2^2`.
pub proof fn law_analytic_hessian<F: Arithmetic>(r: Residues, ctx: AnalyticHessian, i: int, j: int)
    requires
        r.exact::<F>(),
        ctx.wf(),
        0 <= i < ctx.s_list@.len(),
        0 <= j < ctx.s_list@.len(),
        !r.same(r.at(ctx.hin.sigma2), 0),
    ensures
        ({
            let v = r.at(ctx.hin.sigma2);
            let (li, lj) = (r.at(ctx.hin.lambda_j@[i]), r.at(ctx.hin.lambda_j@[j]));
            r.same(
                4 * (v * v) * r.at(ctx.entry::<F>(i, j)),
                v * v * (2 * trace_curvature(r, ctx, i, j) - lj * weight_sum_int(r, ctx, i, j) - li
                    * weight_sum_int(r, ctx, j, i)) + 2 * v * penalty_curvature(r, ctx, i, j) - 2 * (
                lj * r.at(ctx.hin.bsb_per_term@[j]) * r.at(ctx.dsigma2@[i])),
            )
        }),
{
    let v = r.at(ctx.hin.sigma2);
    let vv = v * v;
    let (e1, e2, e3, e4) = (
        times::<F>(half(), ctx.trace_term::<F>(i, j)),
        ctx.weight_term::<F>(i, j),
        ctx.fit_term::<F>(i, j),
        ctx.scale_term::<F>(i, j),
    );
    lemma_trace_term::<F>(r, ctx, i, j);
    let t = trace_curvature(r, ctx, i, j);
    r.on_half::<F>(ctx.trace_term::<F>(i, j), t);
    lemma_weight_term::<F>(r, ctx, i, j);
    lemma_fit_term::<F>(r, ctx, i, j);
    lemma_scale_term::<F>(r, ctx, i, j);
    let (li, lj) = (r.at(ctx.hin.lambda_j@[i]), r.at(ctx.hin.lambda_j@[j]));
    let w = -(lj * weight_sum_int(r, ctx, i, j)) - li * weight_sum_int(r, ctx, j, i);
    let f = penalty_curvature(r, ctx, i, j);
    let c = lj * r.at(ctx.hin.bsb_per_term@[j]) * r.at(ctx.dsigma2@[i]);
    let (v1, v2, v3, v4) = (r.at(e1), r.at(e2), r.at(e3), r.at(e4));
    r.itself(v1);
    r.itself(v2);
    r.itself(v3);
    r.itself(v4);
    let s1 = plus::<F>(e1, e2);
    r.on_plus::<F>(e1, e2, v1, v2);
    let s2 = plus::<F>(s1, e3);
    r.on_plus::<F>(s1, e3, v1 + v2, v3);
    let e = plus::<F>(s2, e4);
    r.on_plus::<F>(s2, e4, v1 + v2 + v3, v4);
    r.scaled(r.at(e), v1 + v2 + v3 + v4, 4 * vv);
    assert(4 * vv * (v1 + v2 + v3 + v4) == vv * (2 * (2 * v1) + 4 * v2) + 4 * vv * v3 + 4 * vv * v4)
        by (nonlinear_arith);
    r.scaled(2 * v1, t, 2);
    r.summed(2 * (2 * v1), 2 * t, 4 * v2, w);
    r.scaled(2 * (2 * v1) + 4 * v2, 2 * t + w, vv);
    r.scaled(v3 * (2 * v), f, 2 * v);
    assert(4 * vv * v3 == 2 * v * (v3 * (2 * v))) by (nonlinear_arith)
        requires
            vv == v * v,
    ;
    r.scaled(v4 * (2 * vv), -c, 2);
    assert(4 * vv * v4 == 2 * (v4 * (2 * vv))) by (nonlinear_arith);
    r.summed(vv * (2 * (2 * v1) + 4 * v2), vv * (2 * t + w), 4 * vv * v3, 2 * v * f);
    r.summed(
        vv * (2 * (2 * v1) + 4 * v2) + 4 * vv * v3,
        vv * (2 * t + w) + 2 * v * f,
        4 * vv * v4,
        2 * -c,
    );
    r.chained(
        4 * vv * r.at(e),
        4 * vv * (v1 + v2 + v3 + v4),
        vv * (2 * t + w) + 2 * v * f + 2 * -c,
    );
    assert(e == ctx.entry::<F>(i, j));
}

proof fn lemma_trace_term<F: Arithmetic>(r: Residues, ctx: AnalyticHessian, i: int, j: int)
    requires
        r.exact::<F>(),
        ctx.wf(),
        0 <= i < ctx.s_list@.len(),
        0 <= j < ctx.s_list@.len(),
    ensures
        r.same(r.at(ctx.trace_term::<F>(i, j)), trace_curvature(r, ctx, i, j)),
{
    let (lid, ljd) = (ctx.hin.lambda_j@[i], ctx.hin.lambda_j@[j]);
    let (li, lj) = (r.at(lid), r.at(ljd));
    lemma_parts::<F>(r, ctx, i);
    lemma_parts::<F>(r, ctx, j);
    let (mi, mj) = (ctx.ainv_s::<F>(i), ctx.ainv_s::<F>(j));
    lemma_trace_at::<F>(r, mi, mj, as_int(r, ctx, i), as_int(r, ctx, j));
    let t = trace(as_int(r, ctx, i), as_int(r, ctx, j), ctx.beta@.len());
    r.itself(li);
    r.itself(lj);
    r.on_neg::<F>(lid, li);
    let ll = times::<F>(lid.neg_spec(), ljd);
    r.on_times::<F>(lid.neg_spec(), ljd, -li, lj);
    let td = trace_product_of::<F>(mi, mj);
    r.on_times::<F>(ll, td, -li * lj, t);
    if i == j {
        let tr = ctx.hin.tr_hinv_s_per_term@[i];
        r.itself(r.at(tr));
        r.on_times::<F>(lid, tr, li, r.at(tr));
        r.on_plus::<F>(times::<F>(ll, td), times::<F>(lid, tr), -li * lj * t, li * r.at(tr));
    }
}

proof fn lemma_fit_term<F: Arithmetic>(r: Residues, ctx: AnalyticHessian, i: int, j: int)
    requires
        r.exact::<F>(),
        ctx.wf(),
        0 <= i < ctx.s_list@.len(),
        0 <= j < ctx.s_list@.len(),
        !r.same(r.at(ctx.hin.sigma2), 0),
    ensures
        r.same(
            r.at(ctx.fit_term::<F>(i, j)) * (2 * r.at(ctx.hin.sigma2)),
            penalty_curvature(r, ctx, i, j),
        ),
{
    let (lid, ljd) = (ctx.hin.lambda_j@[i], ctx.hin.lambda_j@[j]);
    let (li, lj) = (r.at(lid), r.at(ljd));
    lemma_parts::<F>(r, ctx, i);
    lemma_parts::<F>(r, ctx, j);
    lemma_dot_at::<F>(
        r,
        ctx.s_beta::<F>(i),
        ctx.ainv_s_beta::<F>(j),
        sb_int(r, ctx, i),
        asb_int(r, ctx, j),
    );
    assert(ctx.s_list@[i].square(ctx.beta@.len()));
    let d = inner_product(sb_int(r, ctx, i), asb_int(r, ctx, j), ctx.beta@.len());
    r.itself(li);
    r.itself(lj);
    r.constants::<F>();
    assert(lit(MINUS_TWO) == two().neg_spec());
    r.on_neg::<F>(two(), 2);
    let l2 = times::<F>(lit(MINUS_TWO), lid);
    r.on_times::<F>(lit(MINUS_TWO), lid, -2, li);
    let l3 = times::<F>(l2, ljd);
    r.on_times::<F>(l2, ljd, -2 * li, lj);
    let dd = dot_of::<F>(ctx.s_beta::<F>(i), ctx.ainv_s_beta::<F>(j));
    let cross = times::<F>(l3, dd);
    r.on_times::<F>(l3, dd, -2 * li * lj, d);
    let s2 = ctx.hin.sigma2;
    r.itself(r.at(s2));
    if i == j {
        let b = ctx.hin.bsb_per_term@[j];
        r.itself(r.at(b));
        let lb = times::<F>(ljd, b);
        r.on_times::<F>(ljd, b, lj, r.at(b));
        r.on_plus::<F>(cross, lb, -2 * li * lj * d, lj * r.at(b));
        r.on_over_double::<F>(plus::<F>(cross, lb), s2, -2 * li * lj * d + lj * r.at(b), r.at(s2));
    } else {
        r.on_over_double::<F>(cross, s2, -2 * li * lj * d, r.at(s2));
    }
}

proof fn lemma_scale_term<F: Arithmetic>(r: Residues, ctx: AnalyticHessian, i: int, j: int)
    requires
        r.exact::<F>(),
        !r.same(r.at(ctx.hin.sigma2), 0),
    ensures
        ({
            let v = r.at(ctx.hin.sigma2);
            r.same(
                r.at(ctx.scale_term::<F>(i, j)) * (2 * (v * v)),
                -(r.at(ctx.hin.lambda_j@[j]) * r.at(ctx.hin.bsb_per_term@[j]) * r.at(
                    ctx.dsigma2@[i],
                )),
            )
        }),
{
    let s2 = ctx.hin.sigma2;
    let v = r.at(s2);
    let (ld, bd, dd) = (ctx.hin.lambda_j@[j], ctx.hin.bsb_per_term@[j], ctx.dsigma2@[i]);
    let (l, b, d) = (r.at(ld), r.at(bd), r.at(dd));
    r.itself(v);
    r.itself(l);
    r.itself(b);
    r.itself(d);
    r.constants::<F>();
    let lb = times::<F>(ld, bd);
    r.on_times::<F>(ld, bd, l, b);
    r.on_neg::<F>(lb, l * b);
    let inv = r.inverse::<F>(s2, v);
    r.product_not_zero(v, v, inv);
    let h = r.at(half());
    assert(h * 2 == 2 * h);
    r.product_not_zero(2, v * v, h);
    let t = times::<F>(two(), s2);
    r.on_times::<F>(two(), s2, 2, v);
    let tt = times::<F>(t, s2);
    r.on_times::<F>(t, s2, 2 * v, v);
    assert(2 * v * v == 2 * (v * v)) by (nonlinear_arith);
    let q = over::<F>(lb.neg_spec(), tt);
    r.on_over::<F>(lb.neg_spec(), tt, -(l * b), 2 * (v * v));
    let qv = r.at(q);
    r.itself(qv);
    r.on_times::<F>(q, dd, qv, d);
    let m = 2 * (v * v);
    r.scaled(r.at(times::<F>(q, dd)), qv * d, m);
    assert(qv * d * m == (qv * m) * d) by (nonlinear_arith);
    r.scaled(qv * m, -(l * b), d);
    let lbv = l * b;
    assert(-lbv * d == -(lbv * d)) by (nonlinear_arith);
    r.chained(r.at(times::<F>(q, dd)) * m, (qv * m) * d, -(l * b * d));
}

proof fn lemma_weight_term<F: Arithmetic>(r: Residues, ctx: AnalyticHessian, i: int, j: int)
    requires
        r.exact::<F>(),
        ctx.wf(),
        0 <= i < ctx.s_list@.len(),
        0 <= j < ctx.s_list@.len(),
    ensures
        r.same(
            4 * r.at(ctx.weight_term::<F>(i, j)),
            -(r.at(ctx.hin.lambda_j@[j]) * weight_sum_int(r, ctx, i, j)) - r.at(ctx.hin.lambda_j@[i])
                * weight_sum_int(r, ctx, j, i),
        ),
{
    let (lid, ljd) = (ctx.hin.lambda_j@[i], ctx.hin.lambda_j@[j]);
    let (li, lj) = (r.at(lid), r.at(ljd));
    match ctx.chain {
        Some(c) => {
            lemma_weight_sum::<F>(r, ctx, i, j);
            lemma_weight_sum::<F>(r, ctx, j, i);
            let (sij, sji) = (ctx.weight_sum::<F>(c.0@, c.1@, i, j), ctx.weight_sum::<F>(c.0@, c.1@, j, i));
            let (x, y) = (weight_sum_int(r, ctx, i, j), weight_sum_int(r, ctx, j, i));
            r.itself(li);
            r.itself(lj);
            lemma_minus_half::<F>(r, ljd, sij, lj, x);
            lemma_minus_half::<F>(r, lid, sji, li, y);
            let (p, q) = (
                times::<F>(times::<F>(lit(MINUS_HALF), ljd), sij),
                times::<F>(times::<F>(lit(MINUS_HALF), lid), sji),
            );
            let (pv, qv) = (r.at(p), r.at(q));
            r.itself(pv);
            r.itself(qv);
            r.on_plus::<F>(p, q, pv, qv);
            r.on_half::<F>(plus::<F>(p, q), pv + qv);
            let e = r.at(ctx.weight_term::<F>(i, j));
            r.scaled(2 * e, pv + qv, 2);
            r.summed(2 * pv, -(lj * x), 2 * qv, -(li * y));
            r.chained(4 * e, 2 * (pv + qv), -(lj * x) - li * y);
        },
        None => {
            r.constants::<F>();
            r.scaled(r.at(zero()), 0, 4);
        },
    }
}

proof fn lemma_minus_half<F: Arithmetic>(r: Residues, a: Double, b: Double, x: int, y: int)
    requires
        r.exact::<F>(),
        r.same(r.at(a), x),
        r.same(r.at(b), y),
    ensures
        r.same(2 * r.at(times::<F>(times::<F>(lit(MINUS_HALF), a), b)), -(x * y)),
{
    r.constants::<F>();
    let h = r.at(half());
    r.itself(h);
    assert(lit(MINUS_HALF) == half().neg_spec());
    r.on_neg::<F>(half(), h);
    let m = times::<F>(lit(MINUS_HALF), a);
    r.on_times::<F>(lit(MINUS_HALF), a, -h, x);
    r.on_times::<F>(m, b, -h * x, y);
    r.scaled(r.at(times::<F>(m, b)), -h * x * y, 2);
    let xy = x * y;
    assert(2 * (-h * x * y) == -((2 * h) * xy)) by (nonlinear_arith)
        requires
            xy == x * y,
    ;
    r.scaled(2 * h, 1, xy);
    r.scaled((2 * h) * xy, 1 * xy, 1);
    r.chained(2 * r.at(times::<F>(m, b)), -((2 * h) * xy), -xy);
}

/// `c x`, of what the vector stands for.
pub proof fn lemma_times_vec_at<F: Arithmetic>(r: Residues, c: Double, x: Seq<Double>, k: int, f: spec_fn(int) -> int)
    requires
        r.exact::<F>(),
        r.same(r.at(c), k),
        vec_at(r, x, f),
    ensures
        vec_at(r, times_vec_of::<F>(c, x), |i: int| k * f(i)),
{
    let v = times_vec_of::<F>(c, x);
    assert forall|i: int| 0 <= i < v.len() implies r.same(
        r.at(#[trigger] v[i]),
        (|i: int| k * f(i))(i),
    ) by {
        assert(r.same(r.at(x[i]), f(i)));
        r.on_times::<F>(c, x[i], k, f(i));
    }
}

/// `S_k b`.
pub open spec fn ift_sb(r: Residues, ctx: HessIftCtx, k: int) -> spec_fn(int) -> int {
    apply(grid_ints(r, ctx.s_list@[k]@), ints(r, ctx.beta@), ctx.beta@.len())
}

/// The first derivative of the coefficients: `-l_k A^-1 S_k b`.
pub open spec fn ift_b1(r: Residues, ctx: HessIftCtx, k: int) -> spec_fn(int) -> int {
    let f = apply(grid_ints(r, ctx.a_inv@), ift_sb(r, ctx, k), ctx.beta@.len());
    |m: int| -r.at(ctx.lambda@[k]) * f(m)
}

/// What the second derivative of the coefficients is solved for:
/// `-(l_j S_j b1_k + l_k S_k b1_j)`, less `l_k S_k b` on the diagonal.
pub open spec fn ift_rhs(r: Residues, ctx: HessIftCtx, k: int, j: int) -> spec_fn(int) -> int {
    let p = ctx.beta@.len();
    let (lk, lj) = (r.at(ctx.lambda@[k]), r.at(ctx.lambda@[j]));
    let u = apply(grid_ints(r, ctx.s_list@[j]@), ift_b1(r, ctx, k), p);
    let v = apply(grid_ints(r, ctx.s_list@[k]@), ift_b1(r, ctx, j), p);
    let w = ift_sb(r, ctx, k);
    |m: int|
        -(lj * u(m) + lk * v(m)) - if k == j {
            lk * w(m)
        } else {
            0
        }
}

/// The second derivative of the coefficients.
pub open spec fn ift_b2(r: Residues, ctx: HessIftCtx, k: int, j: int) -> spec_fn(int) -> int {
    apply(grid_ints(r, ctx.a_inv@), ift_rhs(r, ctx, k, j), ctx.beta@.len())
}

/// `A^-1 S_j`.
pub open spec fn ift_as(r: Residues, ctx: HessIftCtx, j: int) -> spec_fn(int, int) -> int {
    product(grid_ints(r, ctx.a_inv@), grid_ints(r, ctx.s_list@[j]@), ctx.beta@.len())
}

/// `sum_j l_j S_j b`.
pub open spec fn ift_pull(r: Residues, ctx: HessIftCtx) -> spec_fn(int) -> int {
    |m: int| sum(|j: int| r.at(ctx.lambda@[j]) * ift_sb(r, ctx, j)(m), ctx.lambda@.len())
}

/// The second derivative of the penalised deviance: the gradient of deviance and
/// penalty along the second derivative of the coefficients,
/// `(D' + 2 sum_i l_i S_i b)'b2`, and the change of the penalty of term `j` itself,
/// `2 l_j b'S_j b1_k`, with `l_k b'S_k b` on the diagonal.
pub open spec fn deviance_curvature(r: Residues, ctx: HessIftCtx, k: int, j: int) -> int {
    let p = ctx.beta@.len();
    inner_product(ints(r, ctx.dev_grad_beta@), ift_b2(r, ctx, k, j), p) + 2 * inner_product(
        ift_pull(r, ctx),
        ift_b2(r, ctx, k, j),
        p,
    ) + 2 * r.at(ctx.lambda@[j]) * inner_product(ift_sb(r, ctx, j), ift_b1(r, ctx, k), p) + if k == j {
        r.at(ctx.lambda@[k]) * inner_product(ints(r, ctx.beta@), ift_sb(r, ctx, k), p)
    } else {
        0
    }
}

/// The curvature of `log|A|`: `-l_k l_j tr(A^-1 S_k A^-1 S_j)`, and
/// `l_k tr(A^-1 S_k)` on the diagonal.
pub open spec fn det_curvature(r: Residues, ctx: HessIftCtx, k: int, j: int) -> int {
    let p = ctx.beta@.len();
    let (lk, lj) = (r.at(ctx.lambda@[k]), r.at(ctx.lambda@[j]));
    let m = ift_as(r, ctx, k);
    -(lk * lj * trace(m, ift_as(r, ctx, j), p)) + if k == j {
        lk * sum(|i: int| m(i, i), p)
    } else {
        0
    }
}

proof fn lemma_ift_first<F: Arithmetic>(r: Residues, ctx: HessIftCtx, k: int)
    requires
        r.exact::<F>(),
        ctx.wf(),
        0 <= k < ctx.s_list@.len(),
    ensures
        vec_at(r, ctx.s_beta::<F>(k), ift_sb(r, ctx, k)),
        vec_at(r, ctx.b1::<F>(k), ift_b1(r, ctx, k)),
        mat_at(r, ctx.ainv_s::<F>(k), ctx.beta@.len(), ift_as(r, ctx, k)),
        ctx.s_beta::<F>(k).len() == ctx.beta@.len(),
        ctx.b1::<F>(k).len() == ctx.beta@.len(),
{
    let p = ctx.beta@.len();
    let (s, a) = (ctx.s_list@[k]@, ctx.a_inv@);
    assert(ctx.s_list@[k].square(p));
    lemma_ints(r, ctx.beta@, s, p);
    lemma_ints(r, ctx.beta@, a, p);
    lemma_mat_vec_at::<F>(r, s, ctx.beta@, grid_ints(r, s), ints(r, ctx.beta@));
    lemma_mat_vec_at::<F>(r, a, ctx.s_beta::<F>(k), grid_ints(r, a), ift_sb(r, ctx, k));
    lemma_mat_mul_at::<F>(r, a, s, p, grid_ints(r, a), grid_ints(r, s));
    let l = ctx.lambda@[k];
    r.itself(r.at(l));
    r.on_neg::<F>(l, r.at(l));
    let f = apply(grid_ints(r, a), ift_sb(r, ctx, k), p);
    lemma_times_vec_at::<F>(
        r,
        l.neg_spec(),
        mat_vec_of::<F>(a, ctx.s_beta::<F>(k)),
        -r.at(l),
        f,
    );
}

proof fn lemma_ift_second<F: Arithmetic>(r: Residues, ctx: HessIftCtx, k: int, j: int)
    requires
        r.exact::<F>(),
        ctx.wf(),
        0 <= k < ctx.s_list@.len(),
        0 <= j < ctx.s_list@.len(),
    ensures
        vec_at(r, ctx.b2_rhs::<F>(k, j), ift_rhs(r, ctx, k, j)),
        vec_at(r, ctx.b2::<F>(k, j), ift_b2(r, ctx, k, j)),
{
    let p = ctx.beta@.len();
    lemma_ift_first::<F>(r, ctx, k);
    lemma_ift_first::<F>(r, ctx, j);
    let (sk, sj) = (ctx.s_list@[k]@, ctx.s_list@[j]@);
    assert(ctx.s_list@[k].square(p));
    assert(ctx.s_list@[j].square(p));
    lemma_ints(r, ctx.beta@, sk, p);
    lemma_ints(r, ctx.beta@, sj, p);
    lemma_ints(r, ctx.beta@, ctx.a_inv@, p);
    lemma_mat_vec_at::<F>(r, sj, ctx.b1::<F>(k), grid_ints(r, sj), ift_b1(r, ctx, k));
    lemma_mat_vec_at::<F>(r, sk, ctx.b1::<F>(j), grid_ints(r, sk), ift_b1(r, ctx, j));
    let (ud, vd, wd) = (
        mat_vec_of::<F>(sj, ctx.b1::<F>(k)),
        mat_vec_of::<F>(sk, ctx.b1::<F>(j)),
        ctx.s_beta::<F>(k),
    );
    let u = apply(grid_ints(r, sj), ift_b1(r, ctx, k), p);
    let v = apply(grid_ints(r, sk), ift_b1(r, ctx, j), p);
    let w = ift_sb(r, ctx, k);
    let (lkd, ljd) = (ctx.lambda@[k], ctx.lambda@[j]);
    let (lk, lj) = (r.at(lkd), r.at(ljd));
    r.itself(lk);
    r.itself(lj);
    let rhs = ctx.b2_rhs::<F>(k, j);
    assert forall|m: int| 0 <= m < rhs.len() implies r.same(
        r.at(#[trigger] rhs[m]),
        ift_rhs(r, ctx, k, j)(m),
    ) by {
        assert(r.same(r.at(ud[m]), u(m)));
        assert(r.same(r.at(vd[m]), v(m)));
        assert(r.same(r.at(wd[m]), w(m)));
        let (x, y) = (times::<F>(ljd, ud[m]), times::<F>(lkd, vd[m]));
        r.on_times::<F>(ljd, ud[m], lj, u(m));
        r.on_times::<F>(lkd, vd[m], lk, v(m));
        r.on_plus::<F>(x, y, lj * u(m), lk * v(m));
        let c = plus::<F>(x, y);
        r.on_neg::<F>(c, lj * u(m) + lk * v(m));
        if k == j {
            r.on_times::<F>(lkd, wd[m], lk, w(m));
            r.on_minus::<F>(
                c.neg_spec(),
                times::<F>(lkd, wd[m]),
                -(lj * u(m) + lk * v(m)),
                lk * w(m),
            );
        }
    }
    lemma_mat_vec_at::<F>(
        r,
        ctx.a_inv@,
        rhs,
        grid_ints(r, ctx.a_inv@),
        ift_rhs(r, ctx, k, j),
    );
}

/// The Hessian by implicit derivatives: entry `(k, j)` is the second derivative of
/// the penalised deviance over `2 s2`, and half the curvature of `log|A|`. Stated
/// times `2 s2`.
pub proof fn law_implicit_hessian<F: Arithmetic>(r: Residues, ctx: HessIftCtx, k: int, j: int)
    requires
        r.exact::<F>(),
        ctx.wf(),
        0 <= k < ctx.s_list@.len(),
        0 <= j < ctx.s_list@.len(),
        !r.same(r.at(ctx.sigma2), 0),
    ensures
        r.same(
            r.at(ctx.entry::<F>(k, j)) * (2 * r.at(ctx.sigma2)),
            deviance_curvature(r, ctx, k, j) + r.at(ctx.sigma2) * det_curvature(r, ctx, k, j),
        ),
{
    let v = r.at(ctx.sigma2);
    lemma_deviance_curvature::<F>(r, ctx, k, j);
    lemma_det_curvature::<F>(r, ctx, k, j);
    let (d, t) = (deviance_curvature(r, ctx, k, j), det_curvature(r, ctx, k, j));
    r.itself(v);
    r.constants::<F>();
    let (dd, td) = (ctx.d2::<F>(k, j), ctx.det2::<F>(k, j));
    r.on_over_double::<F>(dd, ctx.sigma2, d, v);
    r.on_over::<F>(td, two(), t, 2);
    let (a, b) = (over::<F>(dd, times::<F>(two(), ctx.sigma2)), over::<F>(td, two()));
    let (x, y) = (r.at(a), r.at(b));
    r.itself(x);
    r.itself(y);
    r.on_plus::<F>(a, b, x, y);
    let e = r.at(plus::<F>(a, b));
    r.scaled(e, x + y, 2 * v);
    assert((x + y) * (2 * v) == x * (2 * v) + v * (y * 2)) by (nonlinear_arith);
    r.scaled(y * 2, t, v);
    r.summed(x * (2 * v), d, v * (y * 2), v * t);
    r.chained(e * (2 * v), (x + y) * (2 * v), d + v * t);
}

proof fn lemma_det_curvature<F: Arithmetic>(r: Residues, ctx: HessIftCtx, k: int, j: int)
    requires
        r.exact::<F>(),
        ctx.wf(),
        0 <= k < ctx.s_list@.len(),
        0 <= j < ctx.s_list@.len(),
    ensures
        r.same(r.at(ctx.det2::<F>(k, j)), det_curvature(r, ctx, k, j)),
{
    let p = ctx.beta@.len();
    lemma_ift_first::<F>(r, ctx, k);
    lemma_ift_first::<F>(r, ctx, j);
    let (mk, mj) = (ctx.ainv_s::<F>(k), ctx.ainv_s::<F>(j));
    lemma_trace_at::<F>(r, mk, mj, ift_as(r, ctx, k), ift_as(r, ctx, j));
    let t = trace(ift_as(r, ctx, k), ift_as(r, ctx, j), p);
    let cross = trace_product_of::<F>(mk, mj);
    let (lkd, ljd) = (ctx.lambda@[k], ctx.lambda@[j]);
    let (lk, lj) = (r.at(lkd), r.at(ljd));
    r.itself(lk);
    r.itself(lj);
    if k == j {
        let term = |i: int| mk[i][i];
        let f = |i: int| ift_as(r, ctx, k)(i, i);
        assert forall|i: int| 0 <= i < p implies r.same(r.at(#[trigger] term(i)), f(i)) by {
            assert(r.same(r.at(mk[i][i]), ift_as(r, ctx, k)(i, i)));
        }
        r.on_total::<F>(term, f, p);
        let tr = ctx.tr_a_s::<F>(k);
        let m = ift_as(r, ctx, k);
        lemma_sum_congruent(f, |i: int| m(i, i), p);
        r.on_times::<F>(lkd, tr, lk, sum(f, p));
        r.on_times::<F>(lkd, ljd, lk, lj);
        r.on_times::<F>(times::<F>(lkd, ljd), cross, lk * lj, t);
        r.on_minus::<F>(
            times::<F>(lkd, tr),
            times::<F>(times::<F>(lkd, ljd), cross),
            lk * sum(f, p),
            lk * lj * t,
        );
    } else {
        r.on_neg::<F>(lkd, lk);
        let n = times::<F>(lkd.neg_spec(), ljd);
        r.on_times::<F>(lkd.neg_spec(), ljd, -lk, lj);
        r.on_times::<F>(n, cross, -lk * lj, t);
        assert(-lk * lj * t == -(lk * lj * t)) by (nonlinear_arith);
    }
}

proof fn lemma_deviance_curvature<F: Arithmetic>(r: Residues, ctx: HessIftCtx, k: int, j: int)
    requires
        r.exact::<F>(),
        ctx.wf(),
        0 <= k < ctx.s_list@.len(),
        0 <= j < ctx.s_list@.len(),
    ensures
        r.same(r.at(ctx.d2::<F>(k, j)), deviance_curvature(r, ctx, k, j)),
{
    let p = ctx.beta@.len();
    lemma_ift_first::<F>(r, ctx, k);
    lemma_ift_first::<F>(r, ctx, j);
    lemma_ift_second::<F>(r, ctx, k, j);
    r.constants::<F>();
    let (lkd, ljd) = (ctx.lambda@[k], ctx.lambda@[j]);
    let (lk, lj) = (r.at(lkd), r.at(ljd));
    r.itself(lk);
    r.itself(lj);
    let (sk, sj) = (ift_sb(r, ctx, k), ift_sb(r, ctx, j));
    let (bk, bj, b2) = (ift_b1(r, ctx, k), ift_b1(r, ctx, j), ift_b2(r, ctx, k, j));
    // The part that cancels: the cross-product applied to the first derivatives.
    let xw = ctx.xtwx@;
    lemma_ints(r, ctx.beta@, xw, p);
    lemma_mat_vec_at::<F>(r, xw, ctx.b1::<F>(k), grid_ints(r, xw), bk);
    let xb = apply(grid_ints(r, xw), bk, p);
    let xbd = ctx.xtwx_b1::<F>(k);
    lemma_times_vec_at::<F>(r, two(), xbd, 2, xb);
    let xb2 = |i: int| 2 * xb(i);
    lemma_dot_at::<F>(r, ctx.b1::<F>(j), times_vec_of::<F>(two(), xbd), bj, xb2);
    lemma_dot_at::<F>(r, ctx.b1::<F>(j), xbd, bj, xb);
    let c = inner_product(bj, xb, p);
    lemma_scaled_product(2, bj, xb, p);
    // Along the second derivative of the coefficients.
    lemma_ints(r, ctx.dev_grad_beta@, xw, p);
    lemma_dot_at::<F>(
        r,
        ctx.dev_grad_beta@,
        ctx.b2::<F>(k, j),
        ints(r, ctx.dev_grad_beta@),
        b2,
    );
    let g = inner_product(ints(r, ctx.dev_grad_beta@), b2, p);
    let pd = ctx.sum_lambda_s_beta::<F>();
    assert forall|m: int| 0 <= m < pd.len() implies r.same(
        r.at(#[trigger] pd[m]),
        ift_pull(r, ctx)(m),
    ) by {
        let term = |i: int| times::<F>(ctx.lambda@[i], ctx.s_beta::<F>(i)[m]);
        let f = |i: int| r.at(ctx.lambda@[i]) * ift_sb(r, ctx, i)(m);
        assert forall|i: int| 0 <= i < ctx.lambda@.len() implies r.same(
            r.at(#[trigger] term(i)),
            f(i),
        ) by {
            lemma_ift_first::<F>(r, ctx, i);
            r.itself(r.at(ctx.lambda@[i]));
            assert(r.same(r.at(ctx.s_beta::<F>(i)[m]), ift_sb(r, ctx, i)(m)));
            r.on_times::<F>(
                ctx.lambda@[i],
                ctx.s_beta::<F>(i)[m],
                r.at(ctx.lambda@[i]),
                ift_sb(r, ctx, i)(m),
            );
        }
        r.on_total::<F>(term, f, ctx.lambda@.len());
    }
    lemma_dot_at::<F>(r, pd, ctx.b2::<F>(k, j), ift_pull(r, ctx), b2);
    let h = inner_product(ift_pull(r, ctx), b2, p);
    // The penalties themselves.
    lemma_dot_at::<F>(r, ctx.s_beta::<F>(k), ctx.b1::<F>(j), sk, bj);
    lemma_dot_at::<F>(r, ctx.s_beta::<F>(j), ctx.b1::<F>(k), sj, bk);
    let (u, w) = (inner_product(sk, bj, p), inner_product(sj, bk, p));
    r.on_neg::<F>(lkd, lk);
    lemma_times_vec_at::<F>(r, lkd.neg_spec(), ctx.s_beta::<F>(k), -lk, sk);
    let ms = |i: int| -lk * sk(i);
    lemma_dot_at::<F>(
        r,
        ctx.b1::<F>(j),
        times_vec_of::<F>(lkd.neg_spec(), ctx.s_beta::<F>(k)),
        bj,
        ms,
    );
    lemma_scaled_product(-lk, bj, sk, p);
    lemma_product_turned(bj, sk, p);
    // Put together.
    let d1 = dot_of::<F>(ctx.b1::<F>(j), times_vec_of::<F>(two(), xbd));
    let d2 = dot_of::<F>(ctx.dev_grad_beta@, ctx.b2::<F>(k, j));
    let kd = if k == j {
        times::<F>(lkd, dot_of::<F>(ctx.beta@, ctx.s_beta::<F>(k)))
    } else {
        zero()
    };
    let kv = if k == j {
        lk * inner_product(ints(r, ctx.beta@), sk, p)
    } else {
        0
    };
    if k == j {
        lemma_dot_at::<F>(r, ctx.beta@, ctx.s_beta::<F>(k), ints(r, ctx.beta@), sk);
        r.on_times::<F>(
            lkd,
            dot_of::<F>(ctx.beta@, ctx.s_beta::<F>(k)),
            lk,
            inner_product(ints(r, ctx.beta@), sk, p),
        );
    }
    let (ud, wd) = (
        dot_of::<F>(ctx.s_beta::<F>(k), ctx.b1::<F>(j)),
        dot_of::<F>(ctx.s_beta::<F>(j), ctx.b1::<F>(k)),
    );
    let (tk, tj) = (times::<F>(two(), lkd), times::<F>(two(), ljd));
    r.on_times::<F>(two(), lkd, 2, lk);
    r.on_times::<F>(two(), ljd, 2, lj);
    let (d4, d5) = (times::<F>(ud, tk), times::<F>(wd, tj));
    r.on_times::<F>(ud, tk, u, 2 * lk);
    r.on_times::<F>(wd, tj, w, 2 * lj);
    let ta = dot_of::<F>(
        ctx.b1::<F>(j),
        times_vec_of::<F>(lkd.neg_spec(), ctx.s_beta::<F>(k)),
    );
    let tb = dot_of::<F>(ctx.b1::<F>(j), xbd);
    r.on_minus::<F>(ta, tb, -lk * u, c);
    let d6 = times::<F>(two(), minus::<F>(ta, tb));
    r.on_times::<F>(two(), minus::<F>(ta, tb), 2, -lk * u - c);
    let hd = dot_of::<F>(pd, ctx.b2::<F>(k, j));
    let d7 = times::<F>(hd, two());
    r.on_times::<F>(hd, two(), h, 2);
    let s1 = plus::<F>(d1, d2);
    r.on_plus::<F>(d1, d2, 2 * c, g);
    let s2 = plus::<F>(s1, kd);
    r.on_plus::<F>(s1, kd, 2 * c + g, kv);
    let s3 = plus::<F>(s2, d4);
    r.on_plus::<F>(s2, d4, 2 * c + g + kv, u * (2 * lk));
    let s4 = plus::<F>(s3, d5);
    r.on_plus::<F>(s3, d5, 2 * c + g + kv + u * (2 * lk), w * (2 * lj));
    let s5 = plus::<F>(s4, d6);
    let x5 = 2 * c + g + kv + u * (2 * lk) + w * (2 * lj);
    r.on_plus::<F>(s4, d6, x5, 2 * (-lk * u - c));
    r.on_plus::<F>(s5, d7, x5 + 2 * (-lk * u - c), h * 2);
    assert(u * (2 * lk) == 2 * (lk * u)) by (nonlinear_arith);
    assert(-lk * u == -(lk * u)) by (nonlinear_arith);
    assert(w * (2 * lj) == 2 * lj * w) by (nonlinear_arith);
    assert(x5 + 2 * (-lk * u - c) + h * 2 == g + 2 * h + 2 * lj * w + kv);
}

proof fn lemma_scaled_product(c: int, x: spec_fn(int) -> int, y: spec_fn(int) -> int, n: nat)
    ensures
        inner_product(x, |i: int| c * y(i), n) == c * inner_product(x, y, n),
{
    let f = |k: int| x(k) * y(k);
    lemma_sum_scaled(c, f, n);
    let g = |k: int| x(k) * (c * y(k));
    let h = |k: int| c * f(k);
    assert forall|k: int| 0 <= k < n implies #[trigger] g(k) == h(k) by {
        let (a, b) = (x(k), y(k));
        assert(a * (c * b) == c * (a * b)) by (nonlinear_arith);
    }
    lemma_sum_congruent(g, h, n);
    let z = |i: int| c * y(i);
    lemma_sum_congruent(|k: int| x(k) * z(k), g, n);
}

proof fn lemma_product_turned(x: spec_fn(int) -> int, y: spec_fn(int) -> int, n: nat)
    ensures
        inner_product(x, y, n) == inner_product(y, x, n),
{
    let f = |k: int| x(k) * y(k);
    let g = |k: int| y(k) * x(k);
    assert forall|k: int| 0 <= k < n implies #[trigger] f(k) == g(k) by {
        let (a, b) = (x(k), y(k));
        assert(a * b == b * a) by (nonlinear_arith);
    }
    lemma_sum_congruent(f, g, n);
}

/// The derivatives of the coefficients satisfy the differentiated equations: where
/// `A` is the matrix whose inverse is at hand, `A b1_k = -l_k S_k b`.
pub proof fn law_first_derivatives_solve_the_equations<F: Arithmetic>(
    r: Residues,
    ctx: HessIftCtx,
    a: spec_fn(int, int) -> int,
    k: int,
    i: int,
)
    requires
        r.exact::<F>(),
        ctx.wf(),
        0 <= k < ctx.s_list@.len(),
        0 <= i < ctx.beta@.len(),
        forall|m: int|
            0 <= m < ctx.beta@.len() ==> r.same(
                #[trigger] product(a, grid_ints(r, ctx.a_inv@), ctx.beta@.len())(i, m),
                if i == m {
                    1
                } else {
                    0
                },
            ),
    ensures
        r.same(
            sum(|m: int| a(i, m) * r.at(ctx.b1::<F>(k)[m]), ctx.beta@.len()),
            -r.at(ctx.lambda@[k]) * ift_sb(r, ctx, k)(i),
        ),
{
    let p = ctx.beta@.len();
    lemma_ift_first::<F>(r, ctx, k);
    let l = -r.at(ctx.lambda@[k]);
    let inv = grid_ints(r, ctx.a_inv@);
    let sb = ift_sb(r, ctx, k);
    let b1 = ctx.b1::<F>(k);
    let asb = apply(inv, sb, p);
    // The derivative is `l` times the inverse applied to `S b`.
    let f = |m: int| a(i, m) * r.at(b1[m]);
    let g = |m: int| a(i, m) * (l * asb(m));
    assert forall|m: int| 0 <= m < p implies r.same(#[trigger] f(m), g(m)) by {
        assert(r.same(r.at(b1[m]), ift_b1(r, ctx, k)(m)));
        r.scaled(r.at(b1[m]), l * asb(m), a(i, m));
    }
    r.same_sums(f, g, p);
    let row = |m: int| a(i, m);
    lemma_scaled_product(l, row, asb, p);
    let h = |m: int| a(i, m) * asb(m);
    let z = |m: int| l * asb(m);
    lemma_sum_congruent(g, |m: int| row(m) * z(m), p);
    lemma_sum_congruent(|m: int| row(m) * asb(m), h, p);
    assert(sum(g, p) == l * sum(h, p));
    // `A` times the inverse is the identity.
    let both = |m: int, n: int| a(i, m) * (inv(m, n) * sb(n));
    let h2 = |m: int| sum(|n: int| both(m, n), p);
    assert forall|m: int| 0 <= m < p implies #[trigger] h(m) == h2(m) by {
        let e = |n: int| inv(m, n) * sb(n);
        lemma_sum_scaled(a(i, m), e, p);
        lemma_sum_congruent(|n: int| both(m, n), |n: int| a(i, m) * e(n), p);
    }
    lemma_sum_congruent(h, h2, p);
    lemma_sums_swapped(both, p, p);
    let cols = |n: int| sum(|m: int| both(m, n), p);
    let id = |n: int|
        if n == i {
            sb(i)
        } else {
            0
        };
    assert forall|n: int| 0 <= n < p implies r.same(#[trigger] cols(n), id(n)) by {
        let e = |m: int| a(i, m) * inv(m, n);
        lemma_sum_scaled(sb(n), e, p);
        let u = |m: int| both(m, n);
        let v = |m: int| sb(n) * e(m);
        assert forall|m: int| 0 <= m < p implies #[trigger] u(m) == v(m) by {
            let (x, y, w) = (a(i, m), inv(m, n), sb(n));
            assert(x * (y * w) == w * (x * y)) by (nonlinear_arith);
        }
        lemma_sum_congruent(u, v, p);
        let d = if i == n {
            1int
        } else {
            0int
        };
        assert(product(a, inv, p)(i, n) == sum(e, p));
        r.scaled(sum(e, p), d, sb(n));
    }
    r.same_sums(cols, id, p);
    let none = |n: int| 0int;
    lemma_sum_zero(none, p);
    lemma_sum_changed(none, id, i, p);
    assert(sum(id, p) == sb(i));
    r.scaled(sum(h, p), sb(i), l);
    r.chained(sum(f, p), l * sum(h, p), l * sb(i));
}

/// A central difference is the slope of whatever is linear between the two points:
/// from `a + b e` and `a - b e` it gives `b`.
pub proof fn law_central_difference<F: Arithmetic>(
    r: Residues,
    up: Double,
    down: Double,
    eps: Double,
    a: int,
    b: int,
)
    requires
        r.exact::<F>(),
        !r.same(r.at(eps), 0),
        r.same(r.at(up), a + b * r.at(eps)),
        r.same(r.at(down), a - b * r.at(eps)),
    ensures
        r.same(r.at(central_of::<F>(up, down, eps)), b),
{
    let e = r.at(eps);
    r.itself(e);
    r.constants::<F>();
    r.on_minus::<F>(up, down, a + b * e, a - b * e);
    let d = minus::<F>(up, down);
    let m = 2 * e;
    assert(a + b * e - (a - b * e) == b * m) by (nonlinear_arith)
        requires
            m == 2 * e,
    ;
    r.on_over_double::<F>(d, eps, b * m, e);
    let t = times::<F>(two(), eps);
    r.on_times::<F>(two(), eps, 2, e);
    let h = r.at(half());
    assert(h * 2 == 2 * h);
    r.product_not_zero(2, e, h);
    let inv = r.inverse::<F>(t, m);
    r.cancelled(r.at(central_of::<F>(up, down, eps)), b, m, inv);
}

/// A second difference is the second derivative of a quadratic: from
/// `a + b e + c e^2`, `a` and `a - b e + c e^2` it gives `2 c`.
pub proof fn law_second_difference<F: Arithmetic>(
    r: Residues,
    up: Double,
    mid: Double,
    down: Double,
    eps: Double,
    a: int,
    b: int,
    c: int,
)
    requires
        r.exact::<F>(),
        !r.same(r.at(eps), 0),
        r.same(r.at(up), a + b * r.at(eps) + c * (r.at(eps) * r.at(eps))),
        r.same(r.at(mid), a),
        r.same(r.at(down), a - b * r.at(eps) + c * (r.at(eps) * r.at(eps))),
    ensures
        r.same(r.at(second_of::<F>(up, mid, down, eps)), 2 * c),
{
    let e = r.at(eps);
    let ee = e * e;
    r.itself(e);
    r.constants::<F>();
    r.on_times::<F>(two(), mid, 2, a);
    let be = b * e;
    let ce = c * ee;
    let x = minus::<F>(up, times::<F>(two(), mid));
    r.on_minus::<F>(up, times::<F>(two(), mid), a + be + ce, 2 * a);
    r.on_plus::<F>(x, down, a + be + ce - 2 * a, a - be + ce);
    assert(2 * ce == 2 * c * ee) by (nonlinear_arith)
        requires
            ce == c * ee,
    ;
    let s = times::<F>(eps, eps);
    r.on_times::<F>(eps, eps, e, e);
    let i0 = r.inverse::<F>(eps, e);
    r.product_not_zero(e, e, i0);
    r.on_over::<F>(plus::<F>(x, down), s, 2 * c * ee, ee);
    let inv = r.inverse::<F>(s, ee);
    r.cancelled(r.at(second_of::<F>(up, mid, down, eps)), 2 * c, ee, inv);
}

/// A mixed difference is the mixed second derivative of a quadratic in two
/// directions: from the four corners of `a + b s + c t + d s^2 + f t^2 + m s t` it
/// gives `m`.
pub proof fn law_mixed_difference<F: Arithmetic>(
    r: Residues,
    pp: Double,
    pm: Double,
    mp: Double,
    mm: Double,
    eps: Double,
    a: int,
    b: int,
    c: int,
    q: int,
    m: int,
)
    requires
        r.exact::<F>(),
        !r.same(r.at(eps), 0),
        r.same(r.at(pp), a + b * r.at(eps) + c * r.at(eps) + (q + m) * (r.at(eps) * r.at(eps))),
        r.same(r.at(pm), a + b * r.at(eps) - c * r.at(eps) + (q - m) * (r.at(eps) * r.at(eps))),
        r.same(r.at(mp), a - b * r.at(eps) + c * r.at(eps) + (q - m) * (r.at(eps) * r.at(eps))),
        r.same(r.at(mm), a - b * r.at(eps) - c * r.at(eps) + (q + m) * (r.at(eps) * r.at(eps))),
    ensures
        r.same(r.at(mixed_of::<F>(pp, pm, mp, mm, eps)), m),
{
    let e = r.at(eps);
    let ee = e * e;
    let (be, ce) = (b * e, c * e);
    let (u, v) = ((q + m) * ee, (q - m) * ee);
    r.itself(e);
    r.constants::<F>();
    let x = minus::<F>(pp, pm);
    r.on_minus::<F>(pp, pm, a + be + ce + u, a + be - ce + v);
    let y = minus::<F>(x, mp);
    r.on_minus::<F>(x, mp, a + be + ce + u - (a + be - ce + v), a - be + ce + v);
    r.on_plus::<F>(
        y,
        mm,
        a + be + ce + u - (a + be - ce + v) - (a - be + ce + v),
        a - be - ce + u,
    );
    let top = plus::<F>(y, mm);
    let k = 4 * e * e;
    assert(2 * u - 2 * v == m * k) by (nonlinear_arith)
        requires
            u == (q + m) * ee,
            v == (q - m) * ee,
            ee == e * e,
            k == 4 * e * e,
    ;
    let f = times::<F>(lit(FOUR), eps);
    r.on_times::<F>(lit(FOUR), eps, 4, e);
    let s = times::<F>(f, eps);
    r.on_times::<F>(f, eps, 4 * e, e);
    let i0 = r.inverse::<F>(eps, e);
    let h = r.at(half());
    assert(h * 2 == 2 * h);
    r.product_not_zero(e, e, i0);
    r.product_not_zero(2, ee, h);
    r.product_not_zero(2, 2 * ee, h);
    assert(2 * (2 * ee) == k) by (nonlinear_arith)
        requires
            ee == e * e,
            k == 4 * e * e,
    ;
    r.on_over::<F>(top, s, m * k, k);
    let inv = r.inverse::<F>(s, k);
    r.cancelled(r.at(mixed_of::<F>(pp, pm, mp, mm, eps)), m, k, inv);
}

/// The Hessian by differences of the gradient is that of a quadratic: where the
/// gradient is linear with a symmetric matrix `h` between the shifted points, it
/// gives `h`.
pub proof fn law_hessian_by_differences<F: Arithmetic>(
    r: Residues,
    d: nat,
    up: Seq<Vec<Double>>,
    down: Seq<Vec<Double>>,
    eps: spec_fn(int) -> Double,
    g: spec_fn(int) -> int,
    h: spec_fn(int, int) -> int,
    i: int,
    j: int,
)
    requires
        r.exact::<F>(),
        0 <= i < d,
        0 <= j < d,
        !r.same(r.at(eps(i)), 0),
        !r.same(r.at(eps(j)), 0),
        h(i, j) == h(j, i),
        r.same(r.at(up[i]@[j]), g(j) + h(j, i) * r.at(eps(i))),
        r.same(r.at(down[i]@[j]), g(j) - h(j, i) * r.at(eps(i))),
        r.same(r.at(up[j]@[i]), g(i) + h(i, j) * r.at(eps(j))),
        r.same(r.at(down[j]@[i]), g(i) - h(i, j) * r.at(eps(j))),
    ensures
        r.same(r.at(differences_of::<F>(d, up, down, eps)[i][j]), h(i, j)),
{
    let (x, y) = (
        central_of::<F>(up[i]@[j], down[i]@[j], eps(i)),
        central_of::<F>(up[j]@[i], down[j]@[i], eps(j)),
    );
    law_central_difference::<F>(r, up[i]@[j], down[i]@[j], eps(i), g(j), h(j, i));
    law_central_difference::<F>(r, up[j]@[i], down[j]@[i], eps(j), g(i), h(i, j));
    let v = h(i, j);
    let e = differences_of::<F>(d, up, down, eps)[i][j];
    if i < j {
        assert(e == times::<F>(half(), plus::<F>(y, x)));
        r.on_plus::<F>(y, x, v, v);
        r.on_half::<F>(plus::<F>(y, x), v + v);
        r.halved::<F>(r.at(e), v);
    } else if j < i {
        assert(e == times::<F>(half(), plus::<F>(x, y)));
        r.on_plus::<F>(x, y, v, v);
        r.on_half::<F>(plus::<F>(x, y), v + v);
        r.halved::<F>(r.at(e), v);
    } else {
        assert(e == x);
    }
}

} // verus!
