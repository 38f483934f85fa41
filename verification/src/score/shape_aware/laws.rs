//! Laws of the gradient along the shape parameters, in exact arithmetic.

use vstd::prelude::*;

use crate::arith::{
    count, lemma_total_congruent, ln, minus, over, plus, times, total, whole, Arithmetic,
};
use crate::dense::mat_vec_of;
use crate::double::{half, lit, one, two, zero, Double, PI, THREE};
use crate::exact::{lemma_sum_congruent, lemma_sum_scaled, sum, Residues};
use crate::inner::laws::{dot_int, law_dot_product, law_quadratic_penalty, quadratic_int};
use crate::inner::linalg::LinearSolver;
use crate::inner::GaussianInnerFit;
use crate::python::reml::ordered_reml_of;
use crate::score::envelope::{bsb_of, lambdas_of, weight_chain_of};
use crate::score::exact_laws::{law_score_from_its_parts, score_int, term_penalty_int};
use crate::score::shape_aware::builder::ShapeInnerBuilder;
use crate::score::shape_aware::level2::Level1ShapeDerivs;
use crate::score::shape_aware::no_refresh::{LsReading, TrialReading};
use crate::score::shape_aware::rho_gradient::{
    rho_slope_of, row_leverage_of, ChainReading, RhoReading, RhoSlope,
};
use crate::score::shape_aware::score::{
    adjusted_log_det_of, adjusted_rank_of, ShapeAwareEnvelopeScore, ValueReading,
};
use crate::score::shape_aware::shape_gradient::{loss_row_read, LinkJet, ShapeGradCtx, ShapeReading};
use crate::traits::{DenseBackend, Link, ShapeLoss, VarianceFn};

verus! {

/// `t` is the derivative along a shape parameter of the curvature of a deviance in
/// the linear predictor, by the chain rule from its derivatives in the mean:
/// `t = Dmu2th / g'^2 - Dmuth g'' / g'^3`.
pub open spec fn curvature_slope(r: Residues, j: LinkJet, dmuth: int, dmu2th: int, t: int) -> bool {
    let (g1, g2) = (r.at(j.g1), r.at(j.g2));
    r.same(t * (g1 * g1 * g1), dmu2th * g1 - dmuth * g2)
}

/// `s` is the third derivative of a deviance in the linear predictor, by the chain
/// rule from its derivatives in the mean:
/// `s = Dmu3 / g'^3 - 3 Dmu2 g'' / g'^4 + Dmu (3 g''^2 - g' g''') / g'^5`.
pub open spec fn third_derivative(r: Residues, j: LinkJet, d1: int, d2: int, d3: int, s: int) -> bool {
    let (g1, g2, g3) = (r.at(j.g1), r.at(j.g2), r.at(j.g3));
    r.same(
        s * (g1 * g1 * g1 * g1 * g1),
        d3 * (g1 * g1) - 3 * (d2 * (g2 * g1)) + d1 * (3 * (g2 * g2) - g3 * g1),
    )
}

/// The link has a derivative that can be divided by.
pub open spec fn jet_usable(r: Residues, j: LinkJet) -> bool {
    !j.flat() && !r.same(r.at(j.g1), 0)
}

/// What is kept of a link: `1 / g'`, `g'' / g'^2` and `g''' / g'^3`.
proof fn lemma_jet<F: Arithmetic>(r: Residues, j: LinkJet)
    requires
        r.exact::<F>(),
        jet_usable(r, j),
    ensures
        ({
            let g1 = r.at(j.g1);
            &&& r.same(r.at(j.ig1_of::<F>()) * g1, 1)
            &&& r.same(r.at(j.g2g_of::<F>()) * (g1 * g1), r.at(j.g2))
            &&& r.same(r.at(j.g3g_of::<F>()) * (g1 * g1 * g1), r.at(j.g3))
        }),
{
    let g1 = r.at(j.g1);
    r.constants::<F>();
    r.itself(g1);
    r.itself(r.at(j.g2));
    r.itself(r.at(j.g3));
    r.on_over::<F>(one(), j.g1, 1, g1);
    let i = r.at(j.ig1_of::<F>());
    r.product_not_zero(g1, g1, i);
    r.product_not_zero(g1, g1 * g1, i);
    let sq = times::<F>(j.g1, j.g1);
    r.on_times::<F>(j.g1, j.g1, g1, g1);
    r.on_over::<F>(j.g2, sq, r.at(j.g2), g1 * g1);
    r.on_times::<F>(sq, j.g1, g1 * g1, g1);
    r.on_over::<F>(j.g3, times::<F>(sq, j.g1), r.at(j.g3), g1 * g1 * g1);
}

/// `x` times a product of ones is `x`.
proof fn lemma_ones(r: Residues, x: int, y: int, i: int)
    requires
        r.same(i, 1),
        r.same(x, y),
    ensures
        r.same(x * i, y),
{
    r.multiplied(x, y, i, 1);
}

/// The derivative of an observation's curvature along a shape parameter is that of
/// the chain rule, for every link.
pub proof fn law_curvature_slope_by_the_chain_rule<F: Arithmetic>(
    r: Residues,
    ctx: ShapeGradCtx,
    i: int,
    k: int,
)
    requires
        r.exact::<F>(),
        jet_usable(r, ctx.jets@[i]),
    ensures
        curvature_slope(
            r,
            ctx.jets@[i],
            r.at(ctx.lv1.dmuth@[i][k]),
            r.at(ctx.lv1.dmu2th@[i][k]),
            r.at(ctx.deta2th::<F>(i, k)),
        ),
{
    let j = ctx.jets@[i];
    lemma_jet::<F>(r, j);
    let (ig1, g2g) = (j.ig1_of::<F>(), j.g2g_of::<F>());
    let (m2d, mtd) = (ctx.lv1.dmu2th@[i][k], ctx.lv1.dmuth@[i][k]);
    let (a, g, g1) = (r.at(ig1), r.at(g2g), r.at(j.g1));
    let (m2, mt) = (r.at(m2d), r.at(mtd));
    r.itself(a);
    r.itself(g);
    r.itself(m2);
    r.itself(mt);
    let aa = times::<F>(ig1, ig1);
    r.on_times::<F>(ig1, ig1, a, a);
    let u = times::<F>(m2d, aa);
    r.on_times::<F>(m2d, aa, m2, a * a);
    let w = times::<F>(mtd, g2g);
    r.on_times::<F>(mtd, g2g, mt, g);
    let x = times::<F>(w, ig1);
    r.on_times::<F>(w, ig1, mt * g, a);
    r.on_minus::<F>(u, x, m2 * (a * a), mt * g * a);
    let t = r.at(minus::<F>(u, x));
    let cube = g1 * g1 * g1;
    r.scaled(t, m2 * (a * a) - mt * g * a, cube);
    let one_a = a * g1;
    assert(m2 * (a * a) * cube == m2 * g1 * one_a * one_a) by (nonlinear_arith)
        requires
            cube == g1 * g1 * g1,
            one_a == a * g1,
    ;
    assert(mt * g * a * cube == mt * (g * (g1 * g1)) * one_a) by (nonlinear_arith)
        requires
            cube == g1 * g1 * g1,
            one_a == a * g1,
    ;
    r.itself(m2 * g1);
    lemma_ones(r, m2 * g1, m2 * g1, one_a);
    lemma_ones(r, m2 * g1 * one_a, m2 * g1, one_a);
    r.scaled(g * (g1 * g1), r.at(j.g2), mt);
    lemma_ones(r, mt * (g * (g1 * g1)), mt * r.at(j.g2), one_a);
    r.scaled(mt * (g * (g1 * g1)) * one_a, mt * r.at(j.g2), 1);
    r.summed(
        m2 * (a * a) * cube,
        m2 * g1,
        -(mt * g * a * cube),
        -(mt * r.at(j.g2)),
    );
    let (p, q) = (m2 * (a * a), mt * g * a);
    assert((p - q) * cube == p * cube - q * cube) by (nonlinear_arith);
    r.chained(t * cube, (p - q) * cube, m2 * g1 - mt * r.at(j.g2));
}

/// Under the log link, whose derivatives at a mean are `1 / mu` and `-1 / mu^2`, the
/// slope of the curvature is `mu^2 Dmu2th + mu Dmuth`.
pub proof fn law_curvature_slope_under_the_log_link<F: Arithmetic>(
    r: Residues,
    ctx: ShapeGradCtx,
    i: int,
    k: int,
    mu: int,
)
    requires
        r.exact::<F>(),
        jet_usable(r, ctx.jets@[i]),
        r.same(r.at(ctx.jets@[i].g1) * mu, 1),
        r.same(r.at(ctx.jets@[i].g2) * (mu * mu), -1),
    ensures
        r.same(
            r.at(ctx.deta2th::<F>(i, k)),
            mu * mu * r.at(ctx.lv1.dmu2th@[i][k]) + mu * r.at(ctx.lv1.dmuth@[i][k]),
        ),
{
    law_curvature_slope_by_the_chain_rule::<F>(r, ctx, i, k);
    let j = ctx.jets@[i];
    let (g1, g2) = (r.at(j.g1), r.at(j.g2));
    let (m2, mt) = (r.at(ctx.lv1.dmu2th@[i][k]), r.at(ctx.lv1.dmuth@[i][k]));
    let t = r.at(ctx.deta2th::<F>(i, k));
    let u = g1 * mu;
    let cube = mu * mu * mu;
    let g3 = g1 * g1 * g1;
    r.scaled(t * g3, m2 * g1 - mt * g2, cube);
    assert(t * g3 * cube == t * u * u * u) by (nonlinear_arith)
        requires
            g3 == g1 * g1 * g1,
            cube == mu * mu * mu,
            u == g1 * mu,
    ;
    r.itself(t);
    lemma_ones(r, t, t, u);
    lemma_ones(r, t * u, t, u);
    lemma_ones(r, t * u * u, t, u);
    r.turned(t * u * u * u, t);
    r.chained(t, t * g3 * cube, (m2 * g1 - mt * g2) * cube);
    let sq = mu * mu;
    assert((m2 * g1 - mt * g2) * cube == m2 * g1 * cube - mt * g2 * cube) by (nonlinear_arith);
    assert(m2 * g1 * cube == (sq * m2) * u) by (nonlinear_arith)
        requires
            cube == mu * mu * mu,
            u == g1 * mu,
            sq == mu * mu,
    ;
    assert(mt * g2 * cube == (mu * mt) * (g2 * sq)) by (nonlinear_arith)
        requires
            cube == mu * mu * mu,
            sq == mu * mu,
    ;
    r.itself(sq * m2);
    lemma_ones(r, sq * m2, sq * m2, u);
    r.scaled(g2 * sq, -1, mu * mt);
    r.scaled((mu * mt) * (g2 * sq), (mu * mt) * -1, 1);
    r.summed((sq * m2) * u, sq * m2, -((mu * mt) * (g2 * sq)), -((mu * mt) * -1));
    r.chained(t, (m2 * g1 - mt * g2) * cube, sq * m2 + mu * mt);
}

/// The third derivative of an observation's deviance in the linear predictor is
/// that of the chain rule, for every link.
pub proof fn law_third_derivative_by_the_chain_rule<F: Arithmetic>(r: Residues, ctx: ShapeGradCtx, i: int)
    requires
        r.exact::<F>(),
        jet_usable(r, ctx.jets@[i]),
    ensures
        third_derivative(
            r,
            ctx.jets@[i],
            r.at(ctx.dmu@[i]),
            r.at(ctx.dmu2@[i]),
            r.at(ctx.lv1.dmu3@[i]),
            r.at(ctx.deta3::<F>(i)),
        ),
{
    let j = ctx.jets@[i];
    lemma_jet::<F>(r, j);
    r.constants::<F>();
    let (ig1, g2g, g3g) = (j.ig1_of::<F>(), j.g2g_of::<F>(), j.g3g_of::<F>());
    let (d1d, d2d, d3d) = (ctx.dmu@[i], ctx.dmu2@[i], ctx.lv1.dmu3@[i]);
    let (a, g, h, g1) = (r.at(ig1), r.at(g2g), r.at(g3g), r.at(j.g1));
    let (g2, g3) = (r.at(j.g2), r.at(j.g3));
    let (d1, d2, d3) = (r.at(d1d), r.at(d2d), r.at(d3d));
    r.itself(a);
    r.itself(g);
    r.itself(h);
    r.itself(d1);
    r.itself(d2);
    r.itself(d3);
    let aa = times::<F>(ig1, ig1);
    r.on_times::<F>(ig1, ig1, a, a);
    let aaa = times::<F>(aa, ig1);
    r.on_times::<F>(aa, ig1, a * a, a);
    let x = times::<F>(d3d, aaa);
    r.on_times::<F>(d3d, aaa, d3, a * a * a);
    let y0 = times::<F>(d2d, g2g);
    r.on_times::<F>(d2d, g2g, d2, g);
    let y1 = times::<F>(lit(THREE), y0);
    r.on_times::<F>(lit(THREE), y0, 3, d2 * g);
    let y = times::<F>(y1, aa);
    r.on_times::<F>(y1, aa, 3 * (d2 * g), a * a);
    let z0 = times::<F>(g2g, g2g);
    r.on_times::<F>(g2g, g2g, g, g);
    let z1 = times::<F>(lit(THREE), z0);
    r.on_times::<F>(lit(THREE), z0, 3, g * g);
    let z2 = minus::<F>(z1, g3g);
    r.on_minus::<F>(z1, g3g, 3 * (g * g), h);
    let z3 = times::<F>(d1d, z2);
    r.on_times::<F>(d1d, z2, d1, 3 * (g * g) - h);
    let z = times::<F>(z3, ig1);
    r.on_times::<F>(z3, ig1, d1 * (3 * (g * g) - h), a);
    let (xv, yv, zv) = (d3 * (a * a * a), 3 * (d2 * g) * (a * a), d1 * (3 * (g * g) - h) * a);
    let xy = minus::<F>(x, y);
    r.on_minus::<F>(x, y, xv, yv);
    r.on_plus::<F>(xy, z, xv - yv, zv);
    let s = r.at(plus::<F>(xy, z));
    let five = g1 * g1 * g1 * g1 * g1;
    r.scaled(s, xv - yv + zv, five);
    assert((xv - yv + zv) * five == xv * five - yv * five + zv * five) by (nonlinear_arith);
    let u = a * g1;
    let gg = g * (g1 * g1);
    let hh = h * (g1 * g1 * g1);
    // The first part.
    let sq = g1 * g1;
    assert(xv * five == d3 * sq * u * u * u) by (nonlinear_arith)
        requires
            xv == d3 * (a * a * a),
            five == g1 * g1 * g1 * g1 * g1,
            sq == g1 * g1,
            u == a * g1,
    ;
    r.itself(d3 * sq);
    lemma_ones(r, d3 * sq, d3 * sq, u);
    lemma_ones(r, d3 * sq * u, d3 * sq, u);
    lemma_ones(r, d3 * sq * u * u, d3 * sq, u);
    // The second part.
    assert(yv * five == 3 * (d2 * (gg * g1)) * u * u) by (nonlinear_arith)
        requires
            yv == 3 * (d2 * g) * (a * a),
            five == g1 * g1 * g1 * g1 * g1,
            gg == g * (g1 * g1),
            u == a * g1,
    ;
    r.scaled(gg, g2, g1);
    r.scaled(gg * g1, g2 * g1, d2);
    r.scaled(d2 * (gg * g1), d2 * (g2 * g1), 3);
    let y2 = 3 * (d2 * (g2 * g1));
    lemma_ones(r, 3 * (d2 * (gg * g1)), y2, u);
    lemma_ones(r, 3 * (d2 * (gg * g1)) * u, y2, u);
    // The third part.
    let four = g1 * g1 * g1 * g1;
    assert(zv * five == d1 * ((3 * (g * g) - h) * four) * u) by (nonlinear_arith)
        requires
            zv == d1 * (3 * (g * g) - h) * a,
            five == four * g1,
            u == a * g1,
    ;
    assert((3 * (g * g) - h) * four == 3 * (g * g * four) - h * four) by (nonlinear_arith);
    assert(g * g * four == gg * gg) by (nonlinear_arith)
        requires
            four == g1 * g1 * g1 * g1,
            gg == g * (g1 * g1),
    ;
    assert(h * four == hh * g1) by (nonlinear_arith)
        requires
            four == g1 * g1 * g1 * g1,
            hh == h * (g1 * g1 * g1),
    ;
    r.multiplied(gg, g2, gg, g2);
    r.scaled(gg * gg, g2 * g2, 3);
    r.scaled(hh, g3, g1);
    r.scaled(hh * g1, g3 * g1, 1);
    r.summed(3 * (gg * gg), 3 * (g2 * g2), -(hh * g1), -(g3 * g1));
    r.scaled(3 * (gg * gg) - hh * g1, 3 * (g2 * g2) - g3 * g1, d1);
    let zz = d1 * (3 * (g2 * g2) - g3 * g1);
    lemma_ones(r, d1 * (3 * (gg * gg) - hh * g1), zz, u);
    // Together.
    r.scaled(yv * five, y2, 1);
    r.summed(xv * five, d3 * sq, -(yv * five), -y2);
    r.summed(xv * five - yv * five, d3 * sq - y2, zv * five, zz);
    r.chained(s * five, (xv - yv + zv) * five, d3 * sq - y2 + zz);
}

/// Twice the derivative of an observation's weight along shape parameter `k`: the
/// curvature's own slope, and its change with the coefficients. Where the family
/// has weights of its own, twice what it answers.
pub open spec fn weight_change(r: Residues, ctx: ShapeGradCtx, t: int, s: int, i: int, k: int) -> int {
    let moved = dot_int(r, ctx.x@[i], ctx.dbeta@[k]@);
    match *ctx.weights {
        Some(w) => 2 * (r.at(w.0@[i][k]) + r.at(w.1@[i]) * moved),
        None => t + s * moved,
    }
}

/// The gradient along shape parameter `k` is
/// `sum_i dD_i / 2 + sum_i dw_i h_i / 2 - dls`, where `2 dw_i` is the derivative of
/// the curvature of observation `i` in its linear predictor, by the chain rule
/// through any link: `t_i` along the parameter itself, and `s_i` times the change of
/// the linear predictor with the coefficients.
pub proof fn law_shape_gradient_by_the_chain_rule<F: Arithmetic>(
    r: Residues,
    ctx: ShapeGradCtx,
    m: nat,
    p: nat,
    k: int,
    t: spec_fn(int) -> int,
    s: spec_fn(int) -> int,
)
    requires
        r.exact::<F>(),
        ctx.wf(m, p),
        0 <= k < m,
        forall|i: int| 0 <= i < ctx.x@.len() ==> jet_usable(r, #[trigger] ctx.jets@[i]),
        forall|i: int|
            0 <= i < ctx.x@.len() ==> curvature_slope(
                r,
                ctx.jets@[i],
                r.at(ctx.lv1.dmuth@[i][k]),
                r.at(ctx.lv1.dmu2th@[i][k]),
                #[trigger] t(i),
            ),
        forall|i: int|
            0 <= i < ctx.x@.len() ==> third_derivative(
                r,
                ctx.jets@[i],
                r.at(ctx.dmu@[i]),
                r.at(ctx.dmu2@[i]),
                r.at(ctx.lv1.dmu3@[i]),
                #[trigger] s(i),
            ),
    ensures
        r.same(
            4 * r.at(ctx.entry::<F>(k)),
            2 * sum(|i: int| r.at(ctx.lv1.dth@[i][k]), ctx.x@.len()) + sum(
                |i: int| weight_change(r, ctx, t(i), s(i), i, k) * r.at(ctx.h_diag@[i]),
                ctx.x@.len(),
            ) - 4 * r.at(ctx.sum_dls@[k]),
        ),
{
    let n = ctx.x@.len();
    let own = |i: int| ctx.lv1.dth@[i][k];
    let f = |i: int| r.at(ctx.lv1.dth@[i][k]);
    assert forall|i: int| 0 <= i < n implies r.same(r.at(#[trigger] own(i)), f(i)) by {
        r.itself(r.at(ctx.lv1.dth@[i][k]));
    }
    r.on_total::<F>(own, f, n);
    let term = |i: int| times::<F>(ctx.weight_slope::<F>(i, k), ctx.h_diag@[i]);
    let g0 = |i: int| r.at(term(i));
    let g = |i: int| weight_change(r, ctx, t(i), s(i), i, k) * r.at(ctx.h_diag@[i]);
    assert forall|i: int| 0 <= i < n implies r.same(r.at(#[trigger] term(i)), g0(i)) by {
        r.itself(r.at(term(i)));
    }
    r.on_total::<F>(term, g0, n);
    let twice = |i: int| 2 * g0(i);
    lemma_sum_scaled(2, g0, n);
    assert forall|i: int| 0 <= i < n implies r.same(#[trigger] twice(i), g(i)) by {
        assert(jet_usable(r, ctx.jets@[i]));
        assert(curvature_slope(
            r,
            ctx.jets@[i],
            r.at(ctx.lv1.dmuth@[i][k]),
            r.at(ctx.lv1.dmu2th@[i][k]),
            t(i),
        ));
        assert(third_derivative(
            r,
            ctx.jets@[i],
            r.at(ctx.dmu@[i]),
            r.at(ctx.dmu2@[i]),
            r.at(ctx.lv1.dmu3@[i]),
            s(i),
        ));
        lemma_weight_slope::<F>(r, ctx, i, k, t(i), s(i));
        let (ws, h) = (ctx.weight_slope::<F>(i, k), ctx.h_diag@[i]);
        r.itself(r.at(ws));
        r.itself(r.at(h));
        r.on_times::<F>(ws, h, r.at(ws), r.at(h));
        r.scaled(r.at(term(i)), r.at(ws) * r.at(h), 2);
        let (a, b) = (r.at(ws), r.at(h));
        assert(2 * (a * b) == (2 * a) * b) by (nonlinear_arith);
        r.scaled(2 * a, weight_change(r, ctx, t(i), s(i), i, k), b);
        r.chained(twice(i), (2 * a) * b, g(i));
    }
    r.same_sums(twice, g, n);
    let (td, tt) = (total::<F>(own, n), total::<F>(term, n));
    r.on_half::<F>(td, sum(f, n));
    r.on_half::<F>(tt, sum(g0, n));
    let (hd, ht) = (times::<F>(half(), td), times::<F>(half(), tt));
    let (x, y, l) = (r.at(hd), r.at(ht), r.at(ctx.sum_dls@[k]));
    r.itself(x);
    r.itself(y);
    r.itself(l);
    r.on_plus::<F>(hd, ht, x, y);
    let e = minus::<F>(plus::<F>(hd, ht), ctx.sum_dls@[k]);
    r.on_minus::<F>(plus::<F>(hd, ht), ctx.sum_dls@[k], x + y, l);
    r.scaled(r.at(e), x + y - l, 4);
    r.scaled(2 * x, sum(f, n), 2);
    r.scaled(2 * y, sum(g0, n), 2);
    r.chained(2 * (2 * y), 2 * sum(g0, n), sum(g, n));
    r.summed(2 * (2 * x), 2 * sum(f, n), 2 * (2 * y), sum(g, n));
    r.itself(-4 * l);
    r.summed(2 * (2 * x) + 2 * (2 * y), 2 * sum(f, n) + sum(g, n), -4 * l, -4 * l);
    r.chained(4 * r.at(e), 4 * (x + y - l), 2 * sum(f, n) + sum(g, n) - 4 * l);
    assert(e == ctx.entry::<F>(k));
}

proof fn lemma_weight_slope<F: Arithmetic>(r: Residues, ctx: ShapeGradCtx, i: int, k: int, t: int, s: int)
    requires
        r.exact::<F>(),
        0 <= i < ctx.x@.len(),
        jet_usable(r, ctx.jets@[i]),
        curvature_slope(
            r,
            ctx.jets@[i],
            r.at(ctx.lv1.dmuth@[i][k]),
            r.at(ctx.lv1.dmu2th@[i][k]),
            t,
        ),
        third_derivative(
            r,
            ctx.jets@[i],
            r.at(ctx.dmu@[i]),
            r.at(ctx.dmu2@[i]),
            r.at(ctx.lv1.dmu3@[i]),
            s,
        ),
    ensures
        r.same(2 * r.at(ctx.weight_slope::<F>(i, k)), weight_change(r, ctx, t, s, i, k)),
{
    let xd = mat_vec_of::<F>(ctx.x@, ctx.dbeta@[k]@)[i];
    let moved = dot_int(r, ctx.x@[i], ctx.dbeta@[k]@);
    law_dot_product::<F>(r, ctx.x@[i], ctx.dbeta@[k]@);
    assert(r.same(r.at(xd), moved));
    match *ctx.weights {
        Some(w) => {
            let (a, b) = (w.0@[i][k], w.1@[i]);
            r.itself(r.at(a));
            r.itself(r.at(b));
            r.on_times::<F>(b, xd, r.at(b), moved);
            r.on_plus::<F>(a, times::<F>(b, xd), r.at(a), r.at(b) * moved);
            r.scaled(
                r.at(plus::<F>(a, times::<F>(b, xd))),
                r.at(a) + r.at(b) * moved,
                2,
            );
        },
        None => {
            let j = ctx.jets@[i];
            let (d2, d3) = (ctx.deta2th::<F>(i, k), ctx.deta3::<F>(i));
            let g1 = r.at(j.g1);
            lemma_jet::<F>(r, j);
            let a = r.at(j.ig1_of::<F>());
            let u = a * g1;
            let (cube, five) = (g1 * g1 * g1, g1 * g1 * g1 * g1 * g1);
            let (icube, ifive) = (a * a * a, a * a * a * a * a);
            assert(icube * cube == u * u * u) by (nonlinear_arith)
                requires
                    icube == a * a * a,
                    cube == g1 * g1 * g1,
                    u == a * g1,
            ;
            assert(ifive * five == u * u * u * u * u) by (nonlinear_arith)
                requires
                    ifive == a * a * a * a * a,
                    five == g1 * g1 * g1 * g1 * g1,
                    u == a * g1,
            ;
            lemma_ones(r, u, 1, u);
            lemma_ones(r, u * u, 1, u);
            lemma_ones(r, u * u * u, 1, u);
            lemma_ones(r, u * u * u * u, 1, u);
            law_curvature_slope_by_the_chain_rule::<F>(r, ctx, i, k);
            law_third_derivative_by_the_chain_rule::<F>(r, ctx, i);
            let (m2, mt) = (r.at(ctx.lv1.dmu2th@[i][k]), r.at(ctx.lv1.dmuth@[i][k]));
            let t_rhs = m2 * g1 - mt * r.at(j.g2);
            r.turned(t * cube, t_rhs);
            r.chained(r.at(d2) * cube, t_rhs, t * cube);
            r.cancelled(r.at(d2), t, cube, icube);
            let (g2, g3) = (r.at(j.g2), r.at(j.g3));
            let (e1, e2, e3) = (r.at(ctx.dmu@[i]), r.at(ctx.dmu2@[i]), r.at(ctx.lv1.dmu3@[i]));
            let s_rhs = e3 * (g1 * g1) - 3 * (e2 * (g2 * g1)) + e1 * (3 * (g2 * g2) - g3 * g1);
            r.turned(s * five, s_rhs);
            r.chained(r.at(d3) * five, s_rhs, s * five);
            r.cancelled(r.at(d3), s, five, ifive);
            r.on_times::<F>(d3, xd, s, moved);
            let v = plus::<F>(d2, times::<F>(d3, xd));
            r.on_plus::<F>(d2, times::<F>(d3, xd), t, s * moved);
            r.on_half::<F>(v, t + s * moved);
        },
    }
}

/// `sum_i a1_i e_i l_i` for what the linear predictor and the leverage stand for.
pub proof fn law_weight_chain_of_rows<F: Arithmetic>(
    r: Residues,
    a1: Seq<Double>,
    x: Seq<Seq<Double>>,
    b: Seq<Double>,
    a: Seq<Seq<Double>>,
)
    requires
        r.exact::<F>(),
        a1.len() == x.len(),
        forall|i: int| 0 <= i < x.len() ==> (#[trigger] x[i]).len() == a.len(),
    ensures
        r.same(
            r.at(
                weight_chain_of::<F>(a1, mat_vec_of::<F>(x, b), row_leverage_of::<F>(x, a)),
            ),
            sum(
                |i: int| r.at(a1[i]) * dot_int(r, x[i], b) * leverage_int(r, x[i], a),
                a1.len(),
            ),
        ),
{
    let eta = mat_vec_of::<F>(x, b);
    let lev = row_leverage_of::<F>(x, a);
    let term = |i: int| times::<F>(times::<F>(a1[i], eta[i]), lev[i]);
    let f = |i: int| r.at(a1[i]) * dot_int(r, x[i], b) * leverage_int(r, x[i], a);
    assert forall|i: int| 0 <= i < a1.len() implies r.same(r.at(#[trigger] term(i)), f(i)) by {
        law_dot_product::<F>(r, x[i], b);
        law_leverage::<F>(r, x, a, i);
        r.itself(r.at(a1[i]));
        r.on_times::<F>(a1[i], eta[i], r.at(a1[i]), dot_int(r, x[i], b));
        r.on_times::<F>(
            times::<F>(a1[i], eta[i]),
            lev[i],
            r.at(a1[i]) * dot_int(r, x[i], b),
            leverage_int(r, x[i], a),
        );
    }
    r.on_total::<F>(term, f, a1.len());
}

/// `x' A x`.
pub open spec fn leverage_int(r: Residues, x: Seq<Double>, a: Seq<Seq<Double>>) -> int {
    sum(|c: int| r.at(x[c]) * dot_int(r, a[c], x), x.len())
}

/// The leverage of a row is `x_i' A x_i`.
pub proof fn law_leverage<F: Arithmetic>(r: Residues, x: Seq<Seq<Double>>, a: Seq<Seq<Double>>, i: int)
    requires
        r.exact::<F>(),
        0 <= i < x.len(),
        x[i].len() == a.len(),
    ensures
        r.same(r.at(row_leverage_of::<F>(x, a)[i]), leverage_int(r, x[i], a)),
{
    let row = x[i];
    let ax = mat_vec_of::<F>(a, row);
    let term = |c: int| times::<F>(row[c], ax[c]);
    let f = |c: int| r.at(row[c]) * dot_int(r, a[c], row);
    assert forall|c: int| 0 <= c < row.len() implies r.same(r.at(#[trigger] term(c)), f(c)) by {
        law_dot_product::<F>(r, a[c], row);
        r.itself(r.at(row[c]));
        r.on_times::<F>(row[c], ax[c], r.at(row[c]), dot_int(r, a[c], row));
    }
    r.on_total::<F>(term, f, row.len());
}

/// A slope along a log smoothing parameter is
/// `l b'Sb / (2 phi) + (l tr + ridge tr(A^-1) + chain - rank) / 2`.
pub proof fn law_rho_slope<F: Arithmetic>(r: Residues, s: RhoSlope, phi: Double, q: int, t: int, d: int, c: int)
    requires
        r.exact::<F>(),
        !r.same(r.at(phi), 0),
        r.same(r.at(s.bsb), q),
        r.same(r.at(s.tr), t),
        r.same(r.at(s.d_ridge), d),
        r.same(r.at(s.tk_kkt), c),
    ensures
        r.same(
            2 * r.at(phi) * r.at(rho_slope_of::<F>(s, phi)),
            r.at(s.lambda) * q + r.at(phi) * (r.at(s.lambda) * t + d * r.at(s.tr_h_inv) + c - s.rank),
        ),
{
    let (v, l, h) = (r.at(phi), r.at(s.lambda), r.at(s.tr_h_inv));
    r.itself(v);
    r.itself(l);
    r.itself(h);
    r.integer::<F>(s.rank);
    let lb = times::<F>(s.lambda, s.bsb);
    r.on_times::<F>(s.lambda, s.bsb, l, q);
    r.on_over_double::<F>(lb, phi, l * q, v);
    let e1 = over::<F>(lb, times::<F>(two(), phi));
    let e2 = times::<F>(times::<F>(half(), s.lambda), s.tr);
    let e3 = times::<F>(times::<F>(half(), s.d_ridge), s.tr_h_inv);
    let e4 = times::<F>(half(), s.tk_kkt);
    let e5 = times::<F>(half(), whole::<F>(s.rank));
    r.on_half_product::<F>(s.lambda, s.tr, l, t);
    r.on_half_product::<F>(s.d_ridge, s.tr_h_inv, d, h);
    r.on_half::<F>(s.tk_kkt, c);
    r.on_half::<F>(whole::<F>(s.rank), s.rank as int);
    let (v1, v2, v3, v4, v5) = (r.at(e1), r.at(e2), r.at(e3), r.at(e4), r.at(e5));
    r.itself(v1);
    r.itself(v2);
    r.itself(v3);
    r.itself(v4);
    r.itself(v5);
    let s1 = plus::<F>(e1, e2);
    r.on_plus::<F>(e1, e2, v1, v2);
    let s2 = plus::<F>(s1, e3);
    r.on_plus::<F>(s1, e3, v1 + v2, v3);
    let s3 = plus::<F>(s2, e4);
    r.on_plus::<F>(s2, e4, v1 + v2 + v3, v4);
    let e = minus::<F>(s3, e5);
    r.on_minus::<F>(s3, e5, v1 + v2 + v3 + v4, v5);
    r.scaled(r.at(e), v1 + v2 + v3 + v4 - v5, 2 * v);
    assert(2 * v * (v1 + v2 + v3 + v4 - v5) == v1 * (2 * v) + v * (2 * v2 + 2 * v3 + 2 * v4 - 2 * v5))
        by (nonlinear_arith);
    let k = s.rank as int;
    r.scaled(2 * v5, k, 1);
    r.summed(2 * v2, l * t, 2 * v3, d * h);
    r.summed(2 * v2 + 2 * v3, l * t + d * h, 2 * v4, c);
    r.summed(2 * v2 + 2 * v3 + 2 * v4, l * t + d * h + c, -(2 * v5), -k);
    r.scaled(2 * v2 + 2 * v3 + 2 * v4 - 2 * v5, l * t + d * h + c - k, v);
    r.summed(
        v1 * (2 * v),
        l * q,
        v * (2 * v2 + 2 * v3 + 2 * v4 - 2 * v5),
        v * (l * t + d * h + c - k),
    );
    r.chained(
        2 * v * r.at(e),
        2 * v * (v1 + v2 + v3 + v4 - v5),
        l * q + v * (l * t + d * h + c - k),
    );
}

/// The change of the weights along parameter `j`, as a number.
pub open spec fn joint_chain_int<L: ShapeLoss<K, V>, K: Link, V: VarianceFn, B, P, D: DenseBackend, S: LinearSolver>(
    r: Residues,
    score: ShapeAwareEnvelopeScore<L, K, V, B, P, D, S>,
    c: Option<ChainReading>,
    j: int,
) -> int {
    let x = score.data.x_design@;
    match c {
        Some(q) => sum(
            |i: int| r.at(q.dw_dmu@[i]) * dot_int(r, x[i], q.dbeta[j]) * leverage_int(r, x[i], q.a_inv@),
            q.dw_dmu@.len(),
        ),
        None => 0,
    }
}

/// Entry `j` of the gradient along the log smoothing parameters belongs to term
/// `j`: smoothing parameter, quadratic penalty, trace, ridge, chain and rank are
/// those of that term.
pub proof fn law_joint_rho_gradient<
    F: Arithmetic,
    L: ShapeLoss<K, V>,
    K: Link,
    V: VarianceFn,
    B: ShapeInnerBuilder<F, D, S, L, K, V>,
    P,
    D: DenseBackend,
    S: LinearSolver,
>(
    r: Residues,
    score: ShapeAwareEnvelopeScore<L, K, V, B, P, D, S>,
    fit: GaussianInnerFit<S>,
    lambda: Seq<Double>,
    bsb: Seq<Double>,
    tr: Seq<Double>,
    phi: Double,
    q: RhoReading,
    j: int,
)
    requires
        r.exact::<F>(),
        !r.same(r.at(phi), 0),
        0 <= j < score.terms(),
        adjusted_rank_of(score.rank_s_list@[j], q.adj) <= i64::MAX,
        q.chain matches Some(c) ==> c.dw_dmu@.len() == score.data.x_design@.len() && forall|i: int|
            0 <= i < score.data.x_design@.len() ==> (#[trigger] score.data.x_design@[i]).len()
                == c.a_inv@.len(),
    ensures
        ({
            let a = score.ridge_axis::<F>(fit, lambda);
            let ridge = r.at(B::ridge(score.data.s_list.len())) * r.at(lambda[j]) * r.at(
                score.data.s_list@[j]@[a][a],
            );
            r.same(
                2 * r.at(phi) * r.at(
                    score.rho_gradient_at::<F>(fit, lambda, bsb, tr, phi, q)[j],
                ),
                r.at(lambda[j]) * r.at(bsb[j]) + r.at(phi) * (r.at(lambda[j]) * r.at(tr[j])
                    + ridge * r.at(q.tr_h_inv) + joint_chain_int(r, score, q.chain, j)
                    - adjusted_rank_of(score.rank_s_list@[j], q.adj)),
            )
        }),
{
    let a = score.ridge_axis::<F>(fit, lambda);
    let rd = B::ridge(score.data.s_list.len());
    let sd = score.data.s_list@[j]@[a][a];
    let rl = times::<F>(rd, lambda[j]);
    r.itself(r.at(rd));
    r.itself(r.at(lambda[j]));
    r.itself(r.at(sd));
    r.itself(r.at(bsb[j]));
    r.itself(r.at(tr[j]));
    r.on_times::<F>(rd, lambda[j], r.at(rd), r.at(lambda[j]));
    r.on_times::<F>(rl, sd, r.at(rd) * r.at(lambda[j]), r.at(sd));
    let tk = score.tk_kkt_of::<F>(q.chain, j);
    match q.chain {
        Some(c) => {
            law_weight_chain_of_rows::<F>(
                r,
                c.dw_dmu@,
                score.data.x_design@,
                c.dbeta[j],
                c.a_inv@,
            );
        },
        None => {
            r.constants::<F>();
        },
    }
    let s = RhoSlope {
        lambda: lambda[j],
        bsb: bsb[j],
        tr: tr[j],
        d_ridge: times::<F>(rl, sd),
        tr_h_inv: q.tr_h_inv,
        tk_kkt: tk,
        rank: adjusted_rank_of(score.rank_s_list@[j], q.adj) as i64,
    };
    law_rho_slope::<F>(
        r,
        s,
        phi,
        r.at(bsb[j]),
        r.at(tr[j]),
        r.at(rd) * r.at(lambda[j]) * r.at(sd),
        joint_chain_int(r, score, q.chain, j),
    );
}

/// `sum_j (rank_j rho_j + log |S_j|+)` with adjusted ranks.
pub open spec fn adjusted_penalty_int(
    r: Residues,
    ranks: Seq<usize>,
    adj: i32,
    rho: Seq<Double>,
    lpd: Seq<Double>,
) -> int {
    sum(|j: int| adjusted_rank_of(ranks[j], adj) * r.at(rho[j]) + r.at(lpd[j]), rho.len())
}

/// The score of a fit with shape parameters, term by term.
pub proof fn law_joint_score_of_a_fit<
    F: Arithmetic,
    L: ShapeLoss<K, V>,
    K: Link,
    V: VarianceFn,
    B,
    P,
    D: DenseBackend,
    S: LinearSolver,
>(
    r: Residues,
    score: ShapeAwareEnvelopeScore<L, K, V, B, P, D, S>,
    fit: GaussianInnerFit<S>,
    rho: Seq<Double>,
    q: ValueReading,
    phi: Double,
)
    requires
        r.exact::<F>(),
        q.phi == Some(phi),
        !r.same(r.at(phi), 0),
        rho.len() == score.terms(),
        forall|j: int|
            0 <= j < rho.len() ==> adjusted_rank_of(#[trigger] score.rank_s_list@[j], q.adj) <= i64::MAX,
    ensures
        r.same(
            2 * r.at(phi) * r.at(score.value_at::<F>(fit, rho, q)),
            score_int::<F>(
                r,
                r.at(fit.deviance) + sum(
                    |j: int| term_penalty_int::<F>(r, score.data.s_list@, rho, fit.beta@, j),
                    rho.len(),
                ),
                phi,
                score.mp,
                r.at(q.log_det_h),
                adjusted_penalty_int(
                    r,
                    score.rank_s_list@,
                    q.adj,
                    rho,
                    score.log_pseudo_det_s_list@,
                ),
                sum(|i: int| r.at(q.sat[i]), score.data.y@.len()),
            ),
        ),
{
    let lambda = lambdas_of::<F>(rho);
    let bsb = bsb_of::<F>(score.data.s_list@, fit.beta@);
    let term = |j: int| times::<F>(lambda[j], bsb[j]);
    let f = |j: int| term_penalty_int::<F>(r, score.data.s_list@, rho, fit.beta@, j);
    assert forall|j: int| 0 <= j < rho.len() implies r.same(r.at(#[trigger] term(j)), f(j)) by {
        law_quadratic_penalty::<F>(r, score.data.s_list@[j]@, fit.beta@);
        r.itself(r.at(lambda[j]));
        r.on_times::<F>(
            lambda[j],
            bsb[j],
            r.at(lambda[j]),
            quadratic_int(r, score.data.s_list@[j]@, fit.beta@),
        );
    }
    r.on_total::<F>(term, f, rho.len());
    let pen = score.bsb_total_of::<F>(rho, fit.beta@);
    r.itself(r.at(fit.deviance));
    let dp = plus::<F>(fit.deviance, pen);
    r.on_plus::<F>(fit.deviance, pen, r.at(fit.deviance), sum(f, rho.len()));
    let (ranks, lpd) = (score.rank_s_list@, score.log_pseudo_det_s_list@);
    let pt = |j: int|
        plus::<F>(
            times::<F>(whole::<F>(adjusted_rank_of(ranks[j], q.adj) as i64), rho[j]),
            lpd[j],
        );
    let pf = |j: int| adjusted_rank_of(ranks[j], q.adj) * r.at(rho[j]) + r.at(lpd[j]);
    assert forall|j: int| 0 <= j < rho.len() implies r.same(r.at(#[trigger] pt(j)), pf(j)) by {
        assert(adjusted_rank_of(score.rank_s_list@[j], q.adj) <= i64::MAX);
        let k = adjusted_rank_of(ranks[j], q.adj);
        r.integer::<F>(k as i64);
        r.itself(r.at(rho[j]));
        r.itself(r.at(lpd[j]));
        r.on_times::<F>(whole::<F>(k as i64), rho[j], k, r.at(rho[j]));
        r.on_plus::<F>(
            times::<F>(whole::<F>(k as i64), rho[j]),
            lpd[j],
            k * r.at(rho[j]),
            r.at(lpd[j]),
        );
    }
    r.on_total::<F>(pt, pf, rho.len());
    let sat = |i: int| q.sat[i];
    let g = |i: int| r.at(q.sat[i]);
    assert forall|i: int| 0 <= i < score.data.y@.len() implies r.same(r.at(#[trigger] sat(i)), g(i)) by {
        r.itself(r.at(q.sat[i]));
    }
    r.on_total::<F>(sat, g, score.data.y@.len());
    r.itself(r.at(q.log_det_h));
    law_score_from_its_parts::<F>(
        r,
        dp,
        phi,
        score.mp,
        q.log_det_h,
        adjusted_log_det_of::<F>(ranks, q.adj, rho, lpd),
        total::<F>(sat, score.data.y@.len()),
        r.at(fit.deviance) + sum(f, rho.len()),
        r.at(q.log_det_h),
        adjusted_penalty_int(r, ranks, q.adj, rho, lpd),
        sum(g, score.data.y@.len()),
    );
}

/// What the coefficients' change along shape parameter `k` is solved from is
/// `X' (dD'/dtheta_k) / 2` in the linear predictor, where the chain rule divides the
/// derivative in the mean by `g'`. Stated times 2.
pub proof fn law_shape_right_hand_side<
    F: Arithmetic,
    L: ShapeLoss<K, V>,
    K: Link,
    V: VarianceFn,
    B,
    P,
    D: DenseBackend,
    S: LinearSolver,
>(
    r: Residues,
    score: ShapeAwareEnvelopeScore<L, K, V, B, P, D, S>,
    lv1: Level1ShapeDerivs,
    jets: Seq<LinkJet>,
    k: int,
    c: int,
    t: spec_fn(int) -> int,
)
    requires
        r.exact::<F>(),
        score.data.x_design@.len() == score.data.y@.len(),
        0 <= c < score.data.x_design.cols,
        forall|i: int| 0 <= i < score.data.y@.len() ==> jet_usable(r, #[trigger] jets[i]),
        forall|i: int|
            0 <= i < score.data.y@.len() ==> r.same(
                #[trigger] t(i) * r.at(jets[i].g1),
                r.at(lv1.dmuth@[i][k]),
            ),
    ensures
        r.same(
            2 * r.at(score.shape_rhs::<F>(lv1, jets, k)[c]),
            sum(|i: int| r.at(score.data.x_design@[i][c]) * t(i), score.data.y@.len()),
        ),
{
    let n = score.data.y@.len();
    let x = score.data.x_design@;
    let v = Seq::new(n, |i: int| times::<F>(lv1.dmuth@[i][k], jets[i].ig1_of::<F>()));
    let term = |i: int| times::<F>(x[i][c], v[i]);
    let f = |i: int| r.at(x[i][c]) * t(i);
    assert forall|i: int| 0 <= i < n implies r.same(r.at(#[trigger] term(i)), f(i)) by {
        assert(jet_usable(r, jets[i]));
        lemma_jet::<F>(r, jets[i]);
        let (m, g, d) = (lv1.dmuth@[i][k], r.at(jets[i].g1), jets[i].ig1_of::<F>());
        let (mv, a, ti) = (r.at(m), r.at(d), t(i));
        r.itself(mv);
        r.itself(a);
        r.on_times::<F>(m, d, mv, a);
        assert(r.same(ti * g, mv));
        r.turned(ti * g, mv);
        r.scaled(mv, ti * g, a);
        assert(ti * g * a == ti * (a * g)) by (nonlinear_arith);
        r.scaled(a * g, 1, ti);
        r.chained(mv * a, ti * (a * g), ti * 1);
        r.chained(r.at(v[i]), mv * a, ti);
        r.itself(r.at(x[i][c]));
        r.on_times::<F>(x[i][c], v[i], r.at(x[i][c]), ti);
    }
    r.on_total::<F>(term, f, n);
    let e = total::<F>(term, n);
    r.on_half::<F>(e, sum(f, n));
    assert(score.shape_rhs::<F>(lv1, jets, k)[c] == times::<F>(e, half()));
}

/// The derivatives of a deviance along the mean count the observation's prior
/// weight: they are that weight times what the loss answers.
pub proof fn law_loss_slopes_are_weighted<F: Arithmetic, L: ShapeLoss<K, V>, K: Link, V: VarianceFn>(
    r: Residues,
    loss: L,
    y: Double,
    mu: Double,
    prior: Double,
    d1: Double,
    d2: Double,
)
    requires
        r.exact::<F>(),
        loss_row_read::<F, L, K, V>(loss, y, mu, prior, d1, d2),
    ensures
        exists|a: Double| #[trigger]
            call_ensures(<L as ShapeLoss<K, V>>::d_loss_dmu, (&loss, y, mu), a) && r.same(
                r.at(d1),
                r.at(prior) * r.at(a),
            ),
        exists|b: Double| #[trigger]
            call_ensures(<L as ShapeLoss<K, V>>::d2_loss_dmu, (&loss, y, mu), b) && r.same(
                r.at(d2),
                r.at(prior) * r.at(b),
            ),
{
    let a = choose|a: Double| #[trigger]
        call_ensures(<L as ShapeLoss<K, V>>::d_loss_dmu, (&loss, y, mu), a) && d1 == times::<F>(prior, a);
    let b = choose|b: Double| #[trigger]
        call_ensures(<L as ShapeLoss<K, V>>::d2_loss_dmu, (&loss, y, mu), b) && d2 == times::<F>(prior, b);
    r.itself(r.at(prior));
    r.itself(r.at(a));
    r.itself(r.at(b));
    r.on_times::<F>(prior, a, r.at(prior), r.at(a));
    r.on_times::<F>(prior, b, r.at(prior), r.at(b));
}

/// The gradient of a fit along shape parameter `k` is that of the chain rule with
/// the derivatives that belong to the observations: their deviances' first and
/// second derivatives in the mean, their links and their leverages.
pub proof fn law_joint_shape_gradient<
    F: Arithmetic,
    L: ShapeLoss<K, V>,
    K: Link,
    V: VarianceFn,
    B,
    P,
    D: DenseBackend,
    S: LinearSolver,
>(
    r: Residues,
    score: ShapeAwareEnvelopeScore<L, K, V, B, P, D, S>,
    lv1: Level1ShapeDerivs,
    q: ShapeReading,
    p: nat,
    k: int,
    t: spec_fn(int) -> int,
    s: spec_fn(int) -> int,
)
    requires
        r.exact::<F>(),
        score.shape_ctx(&lv1, &q).wf(score.n_shape as nat, p),
        0 <= k < score.n_shape,
        q.weights is None,
        forall|i: int| 0 <= i < score.data.x_design@.len() ==> jet_usable(r, #[trigger] q.jets@[i]),
        forall|i: int|
            0 <= i < score.data.x_design@.len() ==> curvature_slope(
                r,
                q.jets@[i],
                r.at(lv1.dmuth@[i][k]),
                r.at(lv1.dmu2th@[i][k]),
                #[trigger] t(i),
            ),
        forall|i: int|
            0 <= i < score.data.x_design@.len() ==> third_derivative(
                r,
                q.jets@[i],
                r.at(q.dmu@[i]),
                r.at(q.dmu2@[i]),
                r.at(lv1.dmu3@[i]),
                #[trigger] s(i),
            ),
    ensures
        ({
            let x = score.data.x_design@;
            r.same(
                4 * r.at(score.shape_ctx(&lv1, &q).entry::<F>(k)),
                2 * sum(|i: int| r.at(lv1.dth@[i][k]), x.len()) + sum(
                    |i: int|
                        (t(i) + s(i) * dot_int(r, x[i], q.dbeta@[k]@)) * r.at(q.h_diag@[i]),
                    x.len(),
                ) - 4 * r.at(q.sum_dls@[k]),
            )
        }),
{
    let ctx = score.shape_ctx(&lv1, &q);
    let x = score.data.x_design@;
    law_shape_gradient_by_the_chain_rule::<F>(r, ctx, score.n_shape as nat, p, k, t, s);
    lemma_sum_congruent(
        |i: int| r.at(ctx.lv1.dth@[i][k]),
        |i: int| r.at(lv1.dth@[i][k]),
        x.len(),
    );
    lemma_sum_congruent(
        |i: int| weight_change(r, ctx, t(i), s(i), i, k) * r.at(ctx.h_diag@[i]),
        |i: int| (t(i) + s(i) * dot_int(r, x[i], q.dbeta@[k]@)) * r.at(q.h_diag@[i]),
        x.len(),
    );
}

/// A trial is scored as a fit is: with the same coefficients, deviance, dispersion,
/// log determinant, rank adjustment and saturated log-likelihoods it has the same
/// score.
pub proof fn law_trial_is_scored_as_a_fit<
    F: Arithmetic,
    L: ShapeLoss<K, V>,
    K: Link,
    V: VarianceFn,
    B,
    P,
    D: DenseBackend,
    S: LinearSolver,
>(
    score: ShapeAwareEnvelopeScore<L, K, V, B, P, D, S>,
    rho: Seq<Double>,
    step: LsReading<S>,
    t: TrialReading,
    fit: GaussianInnerFit<S>,
    q: ValueReading,
)
    requires
        fit.beta@ == step.beta,
        fit.deviance == step.dev,
        q.phi == Some(t.phi),
        q.log_det_h == t.log_det_h,
        q.adj == t.adj,
        q.sat == t.sat,
    ensures
        score.trial_value::<F>(rho, step, t) == score.value_at::<F>(fit, rho, q),
{
    lemma_total_congruent::<F>(
        zero(),
        |i: int| t.sat[i],
        |i: int| q.sat[i],
        score.data.y@.len(),
    );
}

/// The score of ordered categories is
/// `(Dp + log|H| - log|lS|+ - Mp ln(2 pi)) / 2`. Stated times 2.
pub proof fn law_ordered_score<F: Arithmetic>(r: Residues, dp: Double, h: Double, s: Double, mp: usize)
    requires
        r.exact::<F>(),
    ensures
        r.same(
            2 * r.at(ordered_reml_of::<F>(dp, h, s, mp)),
            r.at(dp) + r.at(h) - r.at(s) - mp * r.at(ln::<F>(times::<F>(two(), lit(PI)))),
        ),
{
    let l = ln::<F>(times::<F>(two(), lit(PI)));
    r.constants::<F>();
    r.counted::<F>(mp);
    r.itself(r.at(dp));
    r.itself(r.at(h));
    r.itself(r.at(s));
    r.itself(r.at(l));
    let e1 = over::<F>(dp, two());
    r.on_over::<F>(dp, two(), r.at(dp), 2);
    let e2 = times::<F>(half(), h);
    r.on_half::<F>(h, r.at(h));
    let e3 = times::<F>(half(), s);
    r.on_half::<F>(s, r.at(s));
    let e4 = times::<F>(times::<F>(half(), count::<F>(mp)), l);
    r.on_half_product::<F>(count::<F>(mp), l, mp as int, r.at(l));
    let (a, b, c, d) = (r.at(e1), r.at(e2), r.at(e3), r.at(e4));
    r.itself(a);
    r.itself(b);
    r.itself(c);
    r.itself(d);
    r.on_plus::<F>(e1, e2, a, b);
    let m = minus::<F>(plus::<F>(e1, e2), e3);
    r.on_minus::<F>(plus::<F>(e1, e2), e3, a + b, c);
    r.on_minus::<F>(m, e4, a + b - c, d);
    let e = r.at(minus::<F>(m, e4));
    r.scaled(e, a + b - c - d, 2);
    r.scaled(2 * c, r.at(s), 1);
    r.scaled(2 * d, mp * r.at(l), 1);
    r.summed(a * 2, r.at(dp), 2 * b, r.at(h));
    r.summed(a * 2 + 2 * b, r.at(dp) + r.at(h), -(2 * c), -r.at(s));
    r.summed(
        a * 2 + 2 * b - 2 * c,
        r.at(dp) + r.at(h) - r.at(s),
        -(2 * d),
        -(mp * r.at(l)),
    );
    r.chained(
        2 * e,
        a * 2 + 2 * b - 2 * c - 2 * d,
        r.at(dp) + r.at(h) - r.at(s) - mp * r.at(l),
    );
}

} // verus!
