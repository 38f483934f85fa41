//! Laws of the joint Hessian from second derivatives, in exact arithmetic: every
//! part is a second derivative by the chain rule.

use vstd::prelude::*;

use crate::arith::{minus, plus, times, total, total_from, Arithmetic};
use crate::dense::{
    column_of, dot_of, dot_onto_of, mat_mul_of, mat_t_vec_of, mat_vec_of, scaled_rows_of,
    times_vec_of, trace_product_of,
};
use crate::double::{half, lit, two, zero, Double, MINUS_HALF};
use crate::exact::{lemma_sum_added, lemma_sum_congruent, lemma_sum_zero, sum, Residues};
use crate::inner::laws::{dot_int, law_dot_product};
use crate::score::hess_ift::build_xtwx_of;
use crate::score::hessian_laws::{
    apply, grid_ints, lemma_ints, lemma_mat_mul_at, lemma_mat_vec_at, lemma_trace_at, product,
    trace,
};
use crate::score::shape_aware::level2::Level2Ctx;

verus! {

/// A derivative that is there only along a shape parameter.
pub open spec fn along_shape(r: Residues, ctx: Level2Ctx, m: Seq<Seq<Double>>, row: int, k: int) -> int {
    if k >= ctx.terms() {
        r.at(m[row][ctx.shape(k)])
    } else {
        0
    }
}

/// A derivative that is there only along two shape parameters.
pub open spec fn along_pair(r: Residues, ctx: Level2Ctx, m: Seq<Seq<Double>>, row: int, i: int, k: int) -> int {
    if i >= ctx.terms() && k >= ctx.terms() {
        r.at(m[row][ctx.pair(i, k)])
    } else {
        0
    }
}

/// What the linear predictor of an observation changes by along parameter `k`.
pub open spec fn predictor<F: Arithmetic>(r: Residues, ctx: Level2Ctx, k: int, row: int) -> int {
    r.at(ctx.eta1::<F>(k)[row])
}

/// The change of a weight along parameter `k` is half the derivative of
/// `D''(eta, theta)`: `D''' eta_k + dD''/dtheta_k`. Stated times 2.
pub proof fn law_weight_change<F: Arithmetic>(r: Residues, ctx: Level2Ctx, k: int, row: int)
    requires
        r.exact::<F>(),
        0 <= row < ctx.x@.len(),
    ensures
        r.same(
            2 * r.at(ctx.w1::<F>(k)[row]),
            r.at(ctx.lv1.dmu3@[row]) * predictor::<F>(r, ctx, k, row) + along_shape(
                r,
                ctx,
                ctx.lv1.dmu2th@,
                row,
                k,
            ),
        ),
{
    let (d3, e) = (ctx.lv1.dmu3@[row], ctx.eta1::<F>(k)[row]);
    r.itself(r.at(d3));
    r.itself(r.at(e));
    r.on_half_product::<F>(d3, e, r.at(d3), r.at(e));
    let t = times::<F>(times::<F>(half(), d3), e);
    if k >= ctx.terms() {
        let s = ctx.lv1.dmu2th@[row][ctx.shape(k)];
        r.itself(r.at(s));
        r.on_half::<F>(s, r.at(s));
        let h = times::<F>(half(), s);
        r.itself(r.at(t));
        r.itself(r.at(h));
        r.on_plus::<F>(t, h, r.at(t), r.at(h));
        let w = r.at(plus::<F>(t, h));
        r.scaled(w, r.at(t) + r.at(h), 2);
        r.summed(2 * r.at(t), r.at(d3) * r.at(e), 2 * r.at(h), r.at(s));
        r.chained(2 * w, 2 * r.at(t) + 2 * r.at(h), r.at(d3) * r.at(e) + r.at(s));
    }
}

/// The second derivative of a weight along parameters `i` and `k` is half that of
/// `D''(eta, theta)`, by the chain rule:
/// `D'''' eta_i eta_k + D''' eta_ik + dD'''/dtheta_i eta_k + dD'''/dtheta_k eta_i +
/// d2D''/dtheta_i dtheta_k`. Stated times 2.
pub proof fn law_second_weight_change<F: Arithmetic>(r: Residues, ctx: Level2Ctx, i: int, k: int, row: int)
    requires
        r.exact::<F>(),
        0 <= row < ctx.x@.len(),
    ensures
        ({
            let (ei, ek) = (predictor::<F>(r, ctx, i, row), predictor::<F>(r, ctx, k, row));
            r.same(
                2 * r.at(ctx.w2::<F>(i, k)[row]),
                r.at(ctx.lv2.dmu4@[row]) * ei * ek + r.at(ctx.lv1.dmu3@[row]) * r.at(
                    ctx.eta2::<F>(i, k)[row],
                ) + along_shape(r, ctx, ctx.lv2.dmu3_th@, row, i) * ek + along_shape(
                    r,
                    ctx,
                    ctx.lv2.dmu3_th@,
                    row,
                    k,
                ) * ei + along_pair(r, ctx, ctx.lv2.dmu2_th2@, row, i, k),
            )
        }),
{
    let (d4, d3) = (ctx.lv2.dmu4@[row], ctx.lv1.dmu3@[row]);
    let (eid, ekd, e2d) = (
        ctx.eta1::<F>(i)[row],
        ctx.eta1::<F>(k)[row],
        ctx.eta2::<F>(i, k)[row],
    );
    let (ei, ek, e2) = (r.at(eid), r.at(ekd), r.at(e2d));
    r.itself(r.at(d4));
    r.itself(r.at(d3));
    r.itself(ei);
    r.itself(ek);
    r.itself(e2);
    let t1 = times::<F>(d4, eid);
    r.on_times::<F>(d4, eid, r.at(d4), ei);
    let t2 = times::<F>(t1, ekd);
    r.on_times::<F>(t1, ekd, r.at(d4) * ei, ek);
    let t3 = times::<F>(d3, e2d);
    r.on_times::<F>(d3, e2d, r.at(d3), e2);
    let a = plus::<F>(t2, t3);
    let av = r.at(d4) * ei * ek + r.at(d3) * e2;
    r.on_plus::<F>(t2, t3, r.at(d4) * ei * ek, r.at(d3) * e2);
    let (si, sk) = (
        along_shape(r, ctx, ctx.lv2.dmu3_th@, row, i),
        along_shape(r, ctx, ctx.lv2.dmu3_th@, row, k),
    );
    let sid = ctx.lv2.dmu3_th@[row][ctx.shape(i)];
    let skd = ctx.lv2.dmu3_th@[row][ctx.shape(k)];
    assert(0 * ek == 0 && 0 * ei == 0);
    let b = if i >= ctx.terms() {
        plus::<F>(a, times::<F>(sid, ekd))
    } else {
        a
    };
    if i >= ctx.terms() {
        r.itself(r.at(sid));
        r.on_times::<F>(sid, ekd, r.at(sid), ek);
        r.on_plus::<F>(a, times::<F>(sid, ekd), av, si * ek);
    }
    let bv = av + si * ek;
    let c = if k >= ctx.terms() {
        plus::<F>(b, times::<F>(skd, eid))
    } else {
        b
    };
    if k >= ctx.terms() {
        r.itself(r.at(skd));
        r.on_times::<F>(skd, eid, r.at(skd), ei);
        r.on_plus::<F>(b, times::<F>(skd, eid), bv, sk * ei);
    }
    let cv = bv + sk * ei;
    let p = along_pair(r, ctx, ctx.lv2.dmu2_th2@, row, i, k);
    let pd = ctx.lv2.dmu2_th2@[row][ctx.pair(i, k)];
    let d = if i >= ctx.terms() && k >= ctx.terms() {
        plus::<F>(c, pd)
    } else {
        c
    };
    if i >= ctx.terms() && k >= ctx.terms() {
        r.itself(r.at(pd));
        r.on_plus::<F>(c, pd, cv, r.at(pd));
    }
    r.on_half::<F>(d, cv + p);
    assert(ctx.w2::<F>(i, k)[row] == times::<F>(half(), d));
}

/// The second derivative of the deviance `D(eta, theta)` along parameters `i` and
/// `k`, by the chain rule: summed over the observations,
/// `D'' eta_i eta_k + D' eta_ik + d2D/dtheta_i dtheta_k + dD'/dtheta_i eta_k +
/// dD'/dtheta_k eta_i`.
pub open spec fn deviance_row<F: Arithmetic>(r: Residues, ctx: Level2Ctx, i: int, k: int, row: int) -> int {
    let (ei, ek) = (predictor::<F>(r, ctx, i, row), predictor::<F>(r, ctx, k, row));
    r.at(ctx.dmu2@[row]) * ei * ek + r.at(ctx.dmu@[row]) * r.at(ctx.eta2::<F>(i, k)[row]) + along_pair(
        r,
        ctx,
        ctx.lv2.dth2@,
        row,
        i,
        k,
    ) + along_shape(r, ctx, ctx.lv1.dmuth@, row, i) * ek + along_shape(
        r,
        ctx,
        ctx.lv1.dmuth@,
        row,
        k,
    ) * ei
}

/// The second derivative of the deviance is that of the chain rule, observation by
/// observation.
pub proof fn law_second_derivative_of_the_deviance<F: Arithmetic>(r: Residues, ctx: Level2Ctx, i: int, k: int)
    requires
        r.exact::<F>(),
        ctx.wf(),
    ensures
        r.same(
            r.at(ctx.d2::<F>(i, k)),
            sum(|row: int| deviance_row::<F>(r, ctx, i, k, row), ctx.x@.len()),
        ),
{
    let n = ctx.x@.len();
    let (e1, e2, ee) = (ctx.eta1::<F>(i), ctx.eta1::<F>(k), ctx.eta2::<F>(i, k));
    let ta = |q: int| times::<F>(times::<F>(ctx.dmu2@[q], e1[q]), e2[q]);
    let fa = |q: int| r.at(ctx.dmu2@[q]) * r.at(e1[q]) * r.at(e2[q]);
    assert forall|q: int| 0 <= q < n implies r.same(r.at(#[trigger] ta(q)), fa(q)) by {
        let (x, y, z) = (ctx.dmu2@[q], e1[q], e2[q]);
        r.itself(r.at(x));
        r.itself(r.at(y));
        r.itself(r.at(z));
        r.on_times::<F>(x, y, r.at(x), r.at(y));
        r.on_times::<F>(times::<F>(x, y), z, r.at(x) * r.at(y), r.at(z));
    }
    r.on_total::<F>(ta, fa, n);
    let a = total::<F>(ta, n);
    let fb = |q: int| r.at(ctx.dmu@[q]) * r.at(ee[q]);
    lemma_dot_onto::<F>(r, a, ctx.dmu@, ee, sum(fa, n), n);
    let b = dot_onto_of::<F>(a, ctx.dmu@, ee);
    let vb = sum(fa, n) + sum(fb, n);
    // Along two shape parameters.
    let tc = |q: int| ctx.lv2.dth2@[q][ctx.pair(i, k)];
    let fc = |q: int| along_pair(r, ctx, ctx.lv2.dth2@, q, i, k);
    let both = i >= ctx.terms() && k >= ctx.terms();
    let c = if both {
        total_from::<F>(b, tc, n)
    } else {
        b
    };
    if both {
        assert forall|q: int| 0 <= q < n implies r.same(r.at(#[trigger] tc(q)), fc(q)) by {
            r.itself(r.at(tc(q)));
        }
        r.on_total_from::<F>(b, tc, vb, fc, n);
    } else {
        lemma_sum_zero(fc, n);
    }
    let vc = vb + sum(fc, n);
    // Along one shape parameter and the mean.
    let fd = |q: int| along_shape(r, ctx, ctx.lv1.dmuth@, q, i) * r.at(e2[q]);
    let ci = column_of(ctx.lv1.dmuth@, ctx.shape(i));
    let d = if i >= ctx.terms() {
        dot_onto_of::<F>(c, ci, e2)
    } else {
        c
    };
    if i >= ctx.terms() {
        lemma_dot_onto::<F>(r, c, ci, e2, vc, n);
        lemma_sum_congruent(|q: int| r.at(ci[q]) * r.at(e2[q]), fd, n);
    } else {
        assert forall|q: int| 0 <= q < n implies #[trigger] fd(q) == 0 by {
            let x = r.at(e2[q]);
            assert(0 * x == 0);
        }
        lemma_sum_zero(fd, n);
    }
    let vd = vc + sum(fd, n);
    let fe = |q: int| along_shape(r, ctx, ctx.lv1.dmuth@, q, k) * r.at(e1[q]);
    let ck = column_of(ctx.lv1.dmuth@, ctx.shape(k));
    if k >= ctx.terms() {
        lemma_dot_onto::<F>(r, d, ck, e1, vd, n);
        lemma_sum_congruent(|q: int| r.at(ck[q]) * r.at(e1[q]), fe, n);
    } else {
        assert forall|q: int| 0 <= q < n implies #[trigger] fe(q) == 0 by {
            let x = r.at(e1[q]);
            assert(0 * x == 0);
        }
        lemma_sum_zero(fe, n);
    }
    // One sum.
    lemma_sum_added(fa, fb, n);
    let ab = |q: int| fa(q) + fb(q);
    lemma_sum_added(ab, fc, n);
    let abc = |q: int| ab(q) + fc(q);
    lemma_sum_added(abc, fd, n);
    let abcd = |q: int| abc(q) + fd(q);
    lemma_sum_added(abcd, fe, n);
    lemma_sum_congruent(
        |q: int| abcd(q) + fe(q),
        |row: int| deviance_row::<F>(r, ctx, i, k, row),
        n,
    );
}

proof fn lemma_dot_onto<F: Arithmetic>(r: Residues, start: Double, x: Seq<Double>, y: Seq<Double>, v: int, n: nat)
    requires
        r.exact::<F>(),
        r.same(r.at(start), v),
        x.len() == n,
    ensures
        r.same(
            r.at(dot_onto_of::<F>(start, x, y)),
            v + sum(|q: int| r.at(x[q]) * r.at(y[q]), n),
        ),
{
    let term = |q: int| times::<F>(x[q], y[q]);
    let f = |q: int| r.at(x[q]) * r.at(y[q]);
    assert forall|q: int| 0 <= q < n implies r.same(r.at(#[trigger] term(q)), f(q)) by {
        r.itself(r.at(x[q]));
        r.itself(r.at(y[q]));
        r.on_times::<F>(x[q], y[q], r.at(x[q]), r.at(y[q]));
    }
    r.on_total_from::<F>(start, term, v, f, n);
}

/// The joint Hessian's entry is half the second derivative of deviance and penalty,
/// less that of the saturated log-likelihood, and half that of the log determinant.
/// Stated times 2.
pub proof fn law_joint_hessian_entry<F: Arithmetic>(r: Residues, ctx: Level2Ctx, i: int, k: int)
    requires
        r.exact::<F>(),
    ensures
        r.same(
            2 * r.at(ctx.entry::<F>(i, k)),
            r.at(ctx.d2::<F>(i, k)) + r.at(ctx.p2::<F>(i, k)) - 2 * (if i >= ctx.terms() && k
                >= ctx.terms() {
                r.at(ctx.sum_d2ls@[ctx.pair(i, k)])
            } else {
                0
            }) + r.at(ctx.ldet2::<F>(i, k)),
        ),
{
    let (d, p, l, t) = (
        ctx.d2::<F>(i, k),
        ctx.p2::<F>(i, k),
        ctx.ls2(i, k),
        ctx.ldet2::<F>(i, k),
    );
    r.constants::<F>();
    r.itself(r.at(d));
    r.itself(r.at(p));
    r.itself(r.at(t));
    let lv = if i >= ctx.terms() && k >= ctx.terms() {
        r.at(ctx.sum_d2ls@[ctx.pair(i, k)])
    } else {
        0
    };
    if i >= ctx.terms() && k >= ctx.terms() {
        r.itself(r.at(l));
    }
    r.on_plus::<F>(d, p, r.at(d), r.at(p));
    let h1 = times::<F>(half(), plus::<F>(d, p));
    r.on_half::<F>(plus::<F>(d, p), r.at(d) + r.at(p));
    let h2 = times::<F>(half(), t);
    r.on_half::<F>(t, r.at(t));
    let (x, y) = (r.at(h1), r.at(h2));
    r.itself(x);
    r.itself(y);
    let m = minus::<F>(h1, l);
    r.on_minus::<F>(h1, l, x, lv);
    r.on_plus::<F>(m, h2, x - lv, y);
    let e = r.at(plus::<F>(m, h2));
    r.scaled(e, x - lv + y, 2);
    r.itself(-2 * lv);
    r.summed(2 * x, r.at(d) + r.at(p), -2 * lv, -2 * lv);
    r.summed(2 * x - 2 * lv, r.at(d) + r.at(p) - 2 * lv, 2 * y, r.at(t));
    r.chained(2 * e, 2 * x - 2 * lv + 2 * y, r.at(d) + r.at(p) - 2 * lv + r.at(t));
}

/// The change of the coefficients along a shape parameter satisfies the
/// differentiated equations: `2 b1 = -A^-1 X' dD'/dtheta`.
pub proof fn law_coefficients_along_a_shape_parameter<F: Arithmetic>(r: Residues, ctx: Level2Ctx, k: int, m: int)
    requires
        r.exact::<F>(),
        ctx.wf(),
        ctx.terms() <= k < ctx.axes(),
        0 <= m < ctx.beta@.len(),
    ensures
        ({
            let p = ctx.beta@.len();
            let pull = |c: int|
                sum(
                    |q: int| r.at(ctx.x@[q][c]) * r.at(ctx.lv1.dmuth@[q][ctx.shape(k)]),
                    ctx.x@.len(),
                );
            r.same(
                2 * r.at(ctx.b1::<F>(k)[m]),
                -apply(grid_ints(r, ctx.a_inv@), pull, p)(m),
            )
        }),
{
    let p = ctx.beta@.len();
    let n = ctx.x@.len();
    let col = column_of(ctx.lv1.dmuth@, ctx.shape(k));
    let pull = |c: int|
        sum(|q: int| r.at(ctx.x@[q][c]) * r.at(ctx.lv1.dmuth@[q][ctx.shape(k)]), n);
    let xt = mat_t_vec_of::<F>(ctx.x@, p, col);
    assert forall|c: int| 0 <= c < xt.len() implies r.same(r.at(#[trigger] xt[c]), pull(c)) by {
        let term = |q: int| times::<F>(ctx.x@[q][c], col[q]);
        let f = |q: int| r.at(ctx.x@[q][c]) * r.at(ctx.lv1.dmuth@[q][ctx.shape(k)]);
        assert forall|q: int| 0 <= q < n implies r.same(r.at(#[trigger] term(q)), f(q)) by {
            r.itself(r.at(ctx.x@[q][c]));
            r.itself(r.at(col[q]));
            r.on_times::<F>(ctx.x@[q][c], col[q], r.at(ctx.x@[q][c]), r.at(col[q]));
        }
        r.on_total::<F>(term, f, n);
        assert(xt[c] == total::<F>(term, n));
    }
    lemma_ints(r, xt, ctx.a_inv@, p);
    lemma_mat_vec_at::<F>(r, ctx.a_inv@, xt, grid_ints(r, ctx.a_inv@), pull);
    let ax = mat_vec_of::<F>(ctx.a_inv@, xt);
    let f = apply(grid_ints(r, ctx.a_inv@), pull, p);
    assert(r.same(r.at(ax[m]), f(m)));
    r.constants::<F>();
    let h = r.at(half());
    r.itself(h);
    assert(lit(MINUS_HALF) == half().neg_spec());
    r.on_neg::<F>(half(), h);
    r.on_times::<F>(lit(MINUS_HALF), ax[m], -h, f(m));
    let b = ctx.b1::<F>(k)[m];
    assert(b == times::<F>(lit(MINUS_HALF), ax[m]));
    let v = f(m);
    r.scaled(r.at(b), -h * v, 2);
    assert(2 * (-h * v) == -((2 * h) * v)) by (nonlinear_arith);
    r.scaled(2 * h, 1, v);
    r.scaled((2 * h) * v, 1 * v, 1);
    r.chained(2 * r.at(b), -((2 * h) * v), -v);
}

/// `-(D''' eta_i eta_k + dD'/dtheta_k eta_i + dD'/dtheta_i eta_k)` of an
/// observation.
pub open spec fn pull_row<F: Arithmetic>(r: Residues, ctx: Level2Ctx, i: int, k: int, row: int) -> int {
    let (ei, ek) = (predictor::<F>(r, ctx, i, row), predictor::<F>(r, ctx, k, row));
    -r.at(ctx.lv1.dmu3@[row]) * ei * ek - along_shape(r, ctx, ctx.lv1.dmuth@, row, k) * ei - along_shape(
        r,
        ctx,
        ctx.lv1.dmuth@,
        row,
        i,
    ) * ek
}

proof fn lemma_pull_row<F: Arithmetic>(r: Residues, ctx: Level2Ctx, i: int, k: int, row: int)
    requires
        r.exact::<F>(),
        0 <= row < ctx.x@.len(),
    ensures
        r.same(r.at(ctx.rhs_w::<F>(i, k)[row]), pull_row::<F>(r, ctx, i, k, row)),
{
    let d3 = ctx.lv1.dmu3@[row];
    let (eid, ekd) = (ctx.eta1::<F>(i)[row], ctx.eta1::<F>(k)[row]);
    let (ei, ek) = (r.at(eid), r.at(ekd));
    r.itself(r.at(d3));
    r.itself(ei);
    r.itself(ek);
    r.on_neg::<F>(d3, r.at(d3));
    let t = times::<F>(d3.neg_spec(), eid);
    r.on_times::<F>(d3.neg_spec(), eid, -r.at(d3), ei);
    let a = times::<F>(t, ekd);
    r.on_times::<F>(t, ekd, -r.at(d3) * ei, ek);
    let av = -r.at(d3) * ei * ek;
    let (mkd, mid) = (ctx.lv1.dmuth@[row][ctx.shape(k)], ctx.lv1.dmuth@[row][ctx.shape(i)]);
    let (mk, mi) = (
        along_shape(r, ctx, ctx.lv1.dmuth@, row, k),
        along_shape(r, ctx, ctx.lv1.dmuth@, row, i),
    );
    assert(0 * ei == 0 && 0 * ek == 0);
    let b = if k >= ctx.terms() {
        minus::<F>(a, times::<F>(mkd, eid))
    } else {
        a
    };
    if k >= ctx.terms() {
        r.itself(r.at(mkd));
        r.on_times::<F>(mkd, eid, mk, ei);
        r.on_minus::<F>(a, times::<F>(mkd, eid), av, mk * ei);
    }
    if i >= ctx.terms() {
        r.itself(r.at(mid));
        r.on_times::<F>(mid, ekd, mi, ek);
        r.on_minus::<F>(b, times::<F>(mid, ekd), av - mk * ei, mi * ek);
    }
}

/// A penalty of term `k` applied to a vector, nothing along a shape parameter:
/// `2 l_k (S_k v)_c`.
pub open spec fn penalty_pull<F: Arithmetic>(r: Residues, ctx: Level2Ctx, k: int, v: Seq<Double>, c: int) -> int {
    if k < ctx.terms() {
        2 * r.at(ctx.lambda@[k]) * dot_int(r, ctx.s_list@[k]@[c], v)
    } else {
        0
    }
}

/// The second derivative of the coefficients satisfies the equations differentiated
/// twice: `2 A b2` is, entry by entry, the data's pull
/// `-sum x (D''' eta_i eta_k + dD'/dtheta_k eta_i + dD'/dtheta_i eta_k +
/// d2D'/dtheta_i dtheta_k)` less `2 l_k S_k b1_i`, `2 l_i S_i b1_k`, and
/// `2 l_i S_i b` on the diagonal.
pub proof fn law_second_equations<F: Arithmetic>(r: Residues, ctx: Level2Ctx, i: int, k: int, c: int)
    requires
        r.exact::<F>(),
        ctx.wf(),
        0 <= i < ctx.axes(),
        0 <= k < ctx.axes(),
        0 <= c < ctx.beta@.len(),
    ensures
        r.same(
            r.at(ctx.rhs::<F>(i, k)[c]),
            sum(|q: int| r.at(ctx.x@[q][c]) * pull_row::<F>(r, ctx, i, k, q), ctx.x@.len())
                - penalty_pull::<F>(r, ctx, k, ctx.b1::<F>(i), c) - penalty_pull::<F>(
                r,
                ctx,
                i,
                ctx.b1::<F>(k),
                c,
            ) - (if i == k {
                penalty_pull::<F>(r, ctx, i, ctx.beta@, c)
            } else {
                0
            }) - (if i >= ctx.terms() && k >= ctx.terms() {
                sum(
                    |q: int| r.at(ctx.x@[q][c]) * r.at(ctx.lv2.dmu_th2@[q][ctx.pair(i, k)]),
                    ctx.x@.len(),
                )
            } else {
                0
            }),
        ),
{
    let p = ctx.beta@.len();
    let n = ctx.x@.len();
    let w = ctx.rhs_w::<F>(i, k);
    let f = |q: int| r.at(ctx.x@[q][c]) * pull_row::<F>(r, ctx, i, k, q);
    let term = |q: int| times::<F>(ctx.x@[q][c], w[q]);
    assert forall|q: int| 0 <= q < n implies r.same(r.at(#[trigger] term(q)), f(q)) by {
        lemma_pull_row::<F>(r, ctx, i, k, q);
        r.itself(r.at(ctx.x@[q][c]));
        r.on_times::<F>(ctx.x@[q][c], w[q], r.at(ctx.x@[q][c]), pull_row::<F>(r, ctx, i, k, q));
    }
    r.on_total::<F>(term, f, n);
    let data = mat_t_vec_of::<F>(ctx.x@, p, w)[c];
    assert(data == total::<F>(term, n));
    let (b1i, b1k) = (ctx.b1::<F>(i), ctx.b1::<F>(k));
    let a = if k < ctx.terms() {
        minus::<F>(
            data,
            times::<F>(
                times::<F>(two(), ctx.lambda@[k]),
                mat_vec_of::<F>(ctx.s_list@[k]@, b1i)[c],
            ),
        )
    } else {
        data
    };
    let v0 = sum(f, n);
    let (pk, pi) = (
        penalty_pull::<F>(r, ctx, k, b1i, c),
        penalty_pull::<F>(r, ctx, i, b1k, c),
    );
    if k < ctx.terms() {
        lemma_less_penalty::<F>(r, ctx, data, v0, k, b1i, c);
    }
    let b = if i < ctx.terms() {
        minus::<F>(
            a,
            times::<F>(
                times::<F>(two(), ctx.lambda@[i]),
                mat_vec_of::<F>(ctx.s_list@[i]@, b1k)[c],
            ),
        )
    } else {
        a
    };
    if i < ctx.terms() {
        lemma_less_penalty::<F>(r, ctx, a, v0 - pk, i, b1k, c);
    }
    let d = if i == k && i < ctx.terms() {
        minus::<F>(
            b,
            times::<F>(times::<F>(two(), ctx.lambda@[i]), ctx.s_beta::<F>(i)[c]),
        )
    } else {
        b
    };
    let pd = if i == k {
        penalty_pull::<F>(r, ctx, i, ctx.beta@, c)
    } else {
        0
    };
    if i == k && i < ctx.terms() {
        lemma_less_penalty::<F>(r, ctx, b, v0 - pk - pi, i, ctx.beta@, c);
    }
    if i >= ctx.terms() && k >= ctx.terms() {
        let col = column_of(ctx.lv2.dmu_th2@, ctx.pair(i, k));
        let t2 = |q: int| times::<F>(ctx.x@[q][c], col[q]);
        let g = |q: int| r.at(ctx.x@[q][c]) * r.at(ctx.lv2.dmu_th2@[q][ctx.pair(i, k)]);
        assert forall|q: int| 0 <= q < n implies r.same(r.at(#[trigger] t2(q)), g(q)) by {
            r.itself(r.at(ctx.x@[q][c]));
            r.itself(r.at(col[q]));
            r.on_times::<F>(ctx.x@[q][c], col[q], r.at(ctx.x@[q][c]), r.at(col[q]));
        }
        r.on_total::<F>(t2, g, n);
        let m = mat_t_vec_of::<F>(ctx.x@, p, col)[c];
        assert(m == total::<F>(t2, n));
        r.on_minus::<F>(d, m, v0 - pk - pi - pd, sum(g, n));
    }
}

proof fn lemma_less_penalty<F: Arithmetic>(
    r: Residues,
    ctx: Level2Ctx,
    a: Double,
    v: int,
    k: int,
    b: Seq<Double>,
    c: int,
)
    requires
        r.exact::<F>(),
        ctx.wf(),
        r.same(r.at(a), v),
        0 <= k < ctx.terms(),
        0 <= c < ctx.beta@.len(),
    ensures
        r.same(
            r.at(
                minus::<F>(
                    a,
                    times::<F>(
                        times::<F>(two(), ctx.lambda@[k]),
                        mat_vec_of::<F>(ctx.s_list@[k]@, b)[c],
                    ),
                ),
            ),
            v - penalty_pull::<F>(r, ctx, k, b, c),
        ),
{
    assert(ctx.s_list@[k].square(ctx.beta@.len()));
    let l = ctx.lambda@[k];
    let s = mat_vec_of::<F>(ctx.s_list@[k]@, b)[c];
    law_dot_product::<F>(r, ctx.s_list@[k]@[c], b);
    r.constants::<F>();
    r.itself(r.at(l));
    r.on_times::<F>(two(), l, 2, r.at(l));
    let d = dot_int(r, ctx.s_list@[k]@[c], b);
    r.on_times::<F>(times::<F>(two(), l), s, 2 * r.at(l), d);
    r.on_minus::<F>(a, times::<F>(times::<F>(two(), l), s), v, 2 * r.at(l) * d);
}

/// The second derivative of the coefficients is half the inverse applied to that
/// right-hand side.
pub proof fn law_second_coefficients<F: Arithmetic>(r: Residues, ctx: Level2Ctx, i: int, k: int, m: int)
    requires
        r.exact::<F>(),
        ctx.wf(),
        0 <= m < ctx.beta@.len(),
    ensures
        r.same(
            2 * r.at(ctx.b2::<F>(i, k)[m]),
            sum(
                |c: int| r.at(ctx.a_inv@[m][c]) * r.at(ctx.rhs::<F>(i, k)[c]),
                ctx.beta@.len(),
            ),
        ),
{
    let rhs = ctx.rhs::<F>(i, k);
    law_dot_product::<F>(r, ctx.a_inv@[m], rhs);
    let e = mat_vec_of::<F>(ctx.a_inv@, rhs)[m];
    r.on_half::<F>(e, dot_int(r, ctx.a_inv@[m], rhs));
    assert(ctx.b2::<F>(i, k)[m] == times::<F>(e, half()));
    lemma_sum_congruent(
        |c: int| r.at(ctx.a_inv@[m][c]) * r.at(rhs[c]),
        |c: int| r.at(ctx.a_inv@[m][c]) * r.at(ctx.rhs::<F>(i, k)[c]),
        ctx.beta@.len(),
    );
}

/// Row `c` of the combined penalty applied to a vector: `sum_j l_j (S_j v)_c`.
pub proof fn law_combined_pull<F: Arithmetic>(r: Residues, ctx: Level2Ctx, v: Seq<Double>, c: int)
    requires
        r.exact::<F>(),
        ctx.wf(),
        0 <= c < ctx.beta@.len(),
    ensures
        r.same(
            r.at(ctx.penalty_times::<F>(v)[c]),
            sum(
                |j: int| r.at(ctx.lambda@[j]) * dot_int(r, ctx.s_list@[j]@[c], v),
                ctx.lambda@.len(),
            ),
        ),
{
    let term = |j: int| times::<F>(ctx.lambda@[j], mat_vec_of::<F>(ctx.s_list@[j]@, v)[c]);
    let f = |j: int| r.at(ctx.lambda@[j]) * dot_int(r, ctx.s_list@[j]@[c], v);
    assert forall|j: int| 0 <= j < ctx.lambda@.len() implies r.same(r.at(#[trigger] term(j)), f(j)) by {
        assert(ctx.s_list@[j].square(ctx.beta@.len()));
        law_dot_product::<F>(r, ctx.s_list@[j]@[c], v);
        r.itself(r.at(ctx.lambda@[j]));
        r.on_times::<F>(
            ctx.lambda@[j],
            mat_vec_of::<F>(ctx.s_list@[j]@, v)[c],
            r.at(ctx.lambda@[j]),
            dot_int(r, ctx.s_list@[j]@[c], v),
        );
    }
    r.on_total::<F>(term, f, ctx.lambda@.len());
}

/// `2 l_k v'S_k b`, nothing along a shape parameter.
pub open spec fn penalty_slope<F: Arithmetic>(r: Residues, ctx: Level2Ctx, k: int, v: Seq<Double>) -> int {
    if k < ctx.terms() {
        2 * r.at(ctx.lambda@[k]) * dot_int(r, v, ctx.s_beta::<F>(k))
    } else {
        0
    }
}

/// The second derivative of the penalty `sum_j l_j b'S_j b`: along the second
/// derivative of the coefficients `2 b2'P b`, along the first ones
/// `2 b1_i'P b1_k`, and through the smoothing parameters `2 l_k b1_i'S_k b`,
/// `2 l_i b1_k'S_i b` and `l_i b'S_i b` on the diagonal, with
/// `P = sum_j l_j S_j`.
pub proof fn law_second_derivative_of_the_penalty<F: Arithmetic>(r: Residues, ctx: Level2Ctx, i: int, k: int)
    requires
        r.exact::<F>(),
        ctx.wf(),
        0 <= i < ctx.axes(),
        0 <= k < ctx.axes(),
    ensures
        ({
            let (b1i, b1k, b2) = (ctx.b1::<F>(i), ctx.b1::<F>(k), ctx.b2::<F>(i, k));
            r.same(
                r.at(ctx.p2::<F>(i, k)),
                sum(
                    |c: int| 2 * r.at(b2[c]) * r.at(ctx.penalty_times::<F>(ctx.beta@)[c]),
                    b2.len(),
                ) + sum(
                    |c: int| 2 * r.at(b1i[c]) * r.at(ctx.penalty_times::<F>(b1k)[c]),
                    b1i.len(),
                ) + penalty_slope::<F>(r, ctx, k, b1i) + penalty_slope::<F>(r, ctx, i, b1k) + if i == k
                    && i < ctx.terms() {
                    r.at(ctx.lambda@[i]) * dot_int(r, ctx.beta@, ctx.s_beta::<F>(i))
                } else {
                    0
                },
            )
        }),
{
    let (b1i, b1k, b2) = (ctx.b1::<F>(i), ctx.b1::<F>(k), ctx.b2::<F>(i, k));
    let (pb, pk) = (ctx.penalty_times::<F>(ctx.beta@), ctx.penalty_times::<F>(b1k));
    r.constants::<F>();
    lemma_twice_dot::<F>(r, zero(), b2, pb, 0);
    let a = dot_onto_of::<F>(zero(), times_vec_of::<F>(two(), b2), pb);
    let av = sum(|c: int| 2 * r.at(b2[c]) * r.at(pb[c]), b2.len());
    lemma_twice_dot::<F>(r, a, b1i, pk, av);
    let b = dot_onto_of::<F>(a, times_vec_of::<F>(two(), b1i), pk);
    let bv = av + sum(|c: int| 2 * r.at(b1i[c]) * r.at(pk[c]), b1i.len());
    let c = if k < ctx.terms() {
        plus::<F>(
            b,
            times::<F>(
                times::<F>(two(), ctx.lambda@[k]),
                dot_of::<F>(b1i, ctx.s_beta::<F>(k)),
            ),
        )
    } else {
        b
    };
    if k < ctx.terms() {
        lemma_more_penalty::<F>(r, ctx, b, bv, k, b1i);
    }
    let cv = bv + penalty_slope::<F>(r, ctx, k, b1i);
    let d = if i < ctx.terms() {
        plus::<F>(
            c,
            times::<F>(
                times::<F>(two(), ctx.lambda@[i]),
                dot_of::<F>(b1k, ctx.s_beta::<F>(i)),
            ),
        )
    } else {
        c
    };
    if i < ctx.terms() {
        lemma_more_penalty::<F>(r, ctx, c, cv, i, b1k);
    }
    let dv = cv + penalty_slope::<F>(r, ctx, i, b1k);
    if i == k && i < ctx.terms() {
        let (l, s) = (ctx.lambda@[i], ctx.s_beta::<F>(i));
        law_dot_product::<F>(r, ctx.beta@, s);
        r.itself(r.at(l));
        r.on_times::<F>(l, dot_of::<F>(ctx.beta@, s), r.at(l), dot_int(r, ctx.beta@, s));
        r.on_plus::<F>(
            d,
            times::<F>(l, dot_of::<F>(ctx.beta@, s)),
            dv,
            r.at(l) * dot_int(r, ctx.beta@, s),
        );
    }
}

proof fn lemma_more_penalty<F: Arithmetic>(r: Residues, ctx: Level2Ctx, a: Double, v: int, k: int, b: Seq<Double>)
    requires
        r.exact::<F>(),
        r.same(r.at(a), v),
        0 <= k < ctx.terms(),
    ensures
        r.same(
            r.at(
                plus::<F>(
                    a,
                    times::<F>(
                        times::<F>(two(), ctx.lambda@[k]),
                        dot_of::<F>(b, ctx.s_beta::<F>(k)),
                    ),
                ),
            ),
            v + penalty_slope::<F>(r, ctx, k, b),
        ),
{
    let (l, s) = (ctx.lambda@[k], ctx.s_beta::<F>(k));
    law_dot_product::<F>(r, b, s);
    r.constants::<F>();
    r.itself(r.at(l));
    r.on_times::<F>(two(), l, 2, r.at(l));
    let d = dot_int(r, b, s);
    r.on_times::<F>(times::<F>(two(), l), dot_of::<F>(b, s), 2 * r.at(l), d);
    r.on_plus::<F>(
        a,
        times::<F>(times::<F>(two(), l), dot_of::<F>(b, s)),
        v,
        2 * r.at(l) * d,
    );
}

proof fn lemma_twice_dot<F: Arithmetic>(r: Residues, start: Double, x: Seq<Double>, y: Seq<Double>, v: int)
    requires
        r.exact::<F>(),
        r.same(r.at(start), v),
    ensures
        r.same(
            r.at(dot_onto_of::<F>(start, times_vec_of::<F>(two(), x), y)),
            v + sum(|c: int| 2 * r.at(x[c]) * r.at(y[c]), x.len()),
        ),
{
    let t = times_vec_of::<F>(two(), x);
    let term = |c: int| times::<F>(t[c], y[c]);
    let f = |c: int| 2 * r.at(x[c]) * r.at(y[c]);
    r.constants::<F>();
    assert forall|c: int| 0 <= c < x.len() implies r.same(r.at(#[trigger] term(c)), f(c)) by {
        r.itself(r.at(x[c]));
        r.itself(r.at(y[c]));
        r.on_times::<F>(two(), x[c], 2, r.at(x[c]));
        r.on_times::<F>(t[c], y[c], 2 * r.at(x[c]), r.at(y[c]));
    }
    r.on_total_from::<F>(start, term, v, f, x.len());
}

/// The derivative of `A` along parameter `k`: `X' diag(dw) X`, and `l_k S_k` along a
/// log smoothing parameter.
pub proof fn law_change_of_the_system<F: Arithmetic>(
    r: Residues,
    ctx: Level2Ctx,
    w: Seq<Double>,
    k: int,
    penal: bool,
    b: int,
    c: int,
)
    requires
        r.exact::<F>(),
        0 <= b < ctx.beta@.len(),
        0 <= c < ctx.beta@.len(),
    ensures
        r.same(
            r.at(ctx.curved::<F>(w, k, penal)[b][c]),
            sum(|q: int| r.at(ctx.x@[q][b]) * (r.at(ctx.x@[q][c]) * r.at(w[q])), ctx.x@.len())
                + if penal {
                r.at(ctx.lambda@[k]) * r.at(ctx.s_list@[k]@[b][c])
            } else {
                0
            },
        ),
{
    let p = ctx.beta@.len();
    let x = ctx.x@;
    let sr = scaled_rows_of::<F>(x, p, w);
    let term = |q: int| times::<F>(x[q][b], sr[q][c]);
    let f = |q: int| r.at(x[q][b]) * (r.at(x[q][c]) * r.at(w[q]));
    assert forall|q: int| 0 <= q < x.len() implies r.same(r.at(#[trigger] term(q)), f(q)) by {
        r.itself(r.at(x[q][b]));
        r.itself(r.at(x[q][c]));
        r.itself(r.at(w[q]));
        r.on_times::<F>(x[q][c], w[q], r.at(x[q][c]), r.at(w[q]));
        r.on_times::<F>(x[q][b], sr[q][c], r.at(x[q][b]), r.at(x[q][c]) * r.at(w[q]));
    }
    r.on_total::<F>(term, f, x.len());
    let m = build_xtwx_of::<F>(x, p, w);
    assert(m[b][c] == total::<F>(term, x.len()));
    if penal {
        let (l, s) = (ctx.lambda@[k], ctx.s_list@[k]@[b][c]);
        r.itself(r.at(l));
        r.itself(r.at(s));
        r.on_times::<F>(l, s, r.at(l), r.at(s));
        r.on_plus::<F>(m[b][c], times::<F>(l, s), sum(f, x.len()), r.at(l) * r.at(s));
    }
}

/// The second derivative of `log|A|` along parameters `i` and `k` is
/// `tr(A^-1 A_ik) - tr(A^-1 A_i A^-1 A_k)`, with the changes of `A` that belong to
/// the parameters: `A_k` with the penalty of term `k` along a log smoothing
/// parameter, `A_ik` with it on the diagonal.
pub proof fn law_second_derivative_of_the_log_determinant<F: Arithmetic>(r: Residues, ctx: Level2Ctx, i: int, k: int)
    requires
        r.exact::<F>(),
        ctx.wf(),
    ensures
        ({
            let p = ctx.beta@.len();
            let a = grid_ints(r, ctx.a_inv@);
            let ai = grid_ints(r, ctx.curved::<F>(ctx.w1::<F>(i), i, i < ctx.terms()));
            let ak = grid_ints(r, ctx.curved::<F>(ctx.w1::<F>(k), k, k < ctx.terms()));
            let aik = product(
                a,
                grid_ints(r, ctx.curved::<F>(ctx.w2::<F>(i, k), i, i == k && i < ctx.terms())),
                p,
            );
            r.same(
                r.at(ctx.ldet2::<F>(i, k)),
                sum(|c: int| aik(c, c), p) - trace(product(a, ai, p), product(a, ak, p), p),
            )
        }),
{
    let p = ctx.beta@.len();
    let inv = ctx.a_inv@;
    let a = grid_ints(r, inv);
    let (ci, ck, c2) = (
        ctx.curved::<F>(ctx.w1::<F>(i), i, i < ctx.terms()),
        ctx.curved::<F>(ctx.w1::<F>(k), k, k < ctx.terms()),
        ctx.curved::<F>(ctx.w2::<F>(i, k), i, i == k && i < ctx.terms()),
    );
    lemma_ints(r, ctx.beta@, inv, p);
    lemma_ints(r, ctx.beta@, ci, p);
    lemma_ints(r, ctx.beta@, ck, p);
    lemma_ints(r, ctx.beta@, c2, p);
    lemma_mat_mul_at::<F>(r, inv, ci, p, a, grid_ints(r, ci));
    lemma_mat_mul_at::<F>(r, inv, ck, p, a, grid_ints(r, ck));
    lemma_mat_mul_at::<F>(r, inv, c2, p, a, grid_ints(r, c2));
    let (pi, pk, p2) = (
        product(a, grid_ints(r, ci), p),
        product(a, grid_ints(r, ck), p),
        product(a, grid_ints(r, c2), p),
    );
    lemma_trace_at::<F>(r, ctx.ai_a1::<F>(i), ctx.ai_a1::<F>(k), pi, pk);
    let m = mat_mul_of::<F>(inv, c2, p);
    let term = |c: int| m[c][c];
    let f = |c: int| p2(c, c);
    assert forall|c: int| 0 <= c < p implies r.same(r.at(#[trigger] term(c)), f(c)) by {
        assert(r.same(r.at(m[c][c]), p2(c, c)));
    }
    r.on_total::<F>(term, f, p);
    r.on_minus::<F>(
        total::<F>(term, p),
        trace_product_of::<F>(ctx.ai_a1::<F>(i), ctx.ai_a1::<F>(k)),
        sum(f, p),
        trace(pi, pk, p),
    );
}

} // verus!
