//! Laws of the systems that inner fits solve, in exact arithmetic.

use vstd::prelude::*;

use crate::arith::{exp, minus, over, plus, times, total, Arithmetic};
use crate::dense::{
    add_penalty_of, beta_sbeta_of, dot_of, mat_plus_of, trace_product_of, weighted_xt_of,
};
use crate::double::{half, lit, one, two, zero, Double, E_M12, MINUS_TWO, MIN_POSITIVE};
use crate::exact::{
    lemma_sum_changed, lemma_sum_congruent, lemma_sum_scaled, lemma_sums_swapped, sum, Residues,
};
use crate::inner::gam_fit5::{
    category_of, cuts_read, ocat_derivs_of, ocat_deviance_of, ocat_pair, ocat_row_from, ocat_row_of,
    CutValues, OcatLoss,
};
use crate::inner::pirls::{
    alpha_of, deviance_of, floored_variance, irls_row_of, row_from, row_read, standard_pair,
    PirlsInner, RowShape,
};
use crate::inner::{combined_s_of, max_change_upto, xtwx_of, xtwy_of};
use crate::matrix::Matrix;
use crate::traits::{Link, Loss, VarianceFn};

verus! {

/// `sum_k x_k y_k`.
pub open spec fn dot_int(r: Residues, x: Seq<Double>, y: Seq<Double>) -> int {
    sum(|k: int| r.at(x[k]) * r.at(y[k]), x.len())
}

/// `sum_i b_i sum_j s_ij b_j`.
pub open spec fn quadratic_int(r: Residues, s: Seq<Seq<Double>>, b: Seq<Double>) -> int {
    sum(|i: int| r.at(b[i]) * dot_int(r, s[i], b), b.len())
}

/// `sum_i sum_j a_ij b_ji`.
pub open spec fn trace_int(r: Residues, a: Seq<Seq<Double>>, b: Seq<Seq<Double>>) -> int {
    sum(|i: int| sum(|j: int| r.at(a[i][j]) * r.at(b[j][i]), a.len()), a.len())
}

/// A dot product is the sum of the products.
pub proof fn law_dot_product<F: Arithmetic>(r: Residues, x: Seq<Double>, y: Seq<Double>)
    requires
        r.exact::<F>(),
    ensures
        r.same(r.at(dot_of::<F>(x, y)), dot_int(r, x, y)),
{
    let term = |k: int| times::<F>(x[k], y[k]);
    let f = |k: int| r.at(x[k]) * r.at(y[k]);
    assert forall|k: int| 0 <= k < x.len() implies r.same(r.at(#[trigger] term(k)), f(k)) by {
        r.itself(r.at(x[k]));
        r.itself(r.at(y[k]));
        r.on_times::<F>(x[k], y[k], r.at(x[k]), r.at(y[k]));
    }
    r.on_total::<F>(term, f, x.len());
}

/// The quadratic penalty is `b'S b`.
pub proof fn law_quadratic_penalty<F: Arithmetic>(r: Residues, s: Seq<Seq<Double>>, b: Seq<Double>)
    requires
        r.exact::<F>(),
    ensures
        r.same(r.at(beta_sbeta_of::<F>(s, b)), quadratic_int(r, s, b)),
{
    let term = |i: int| times::<F>(b[i], dot_of::<F>(s[i], b));
    let f = |i: int| r.at(b[i]) * dot_int(r, s[i], b);
    assert forall|i: int| 0 <= i < b.len() implies r.same(r.at(#[trigger] term(i)), f(i)) by {
        law_dot_product::<F>(r, s[i], b);
        r.itself(r.at(b[i]));
        r.on_times::<F>(b[i], dot_of::<F>(s[i], b), r.at(b[i]), dot_int(r, s[i], b));
    }
    r.on_total::<F>(term, f, b.len());
}

/// The trace of a product is `tr(A B)`.
pub proof fn law_trace_of_product<F: Arithmetic>(r: Residues, a: Seq<Seq<Double>>, b: Seq<Seq<Double>>)
    requires
        r.exact::<F>(),
    ensures
        r.same(r.at(trace_product_of::<F>(a, b)), trace_int(r, a, b)),
{
    let term = |i: int, j: int| times::<F>(a[i][j], b[j][i]);
    let f = |i: int, j: int| r.at(a[i][j]) * r.at(b[j][i]);
    assert forall|i: int, j: int| 0 <= i < a.len() && 0 <= j < a.len() implies r.same(
        r.at(#[trigger] term(i, j)),
        f(i, j),
    ) by {
        r.itself(r.at(a[i][j]));
        r.itself(r.at(b[j][i]));
        r.on_times::<F>(a[i][j], b[j][i], r.at(a[i][j]), r.at(b[j][i]));
    }
    r.on_total2::<F>(term, f, a.len(), a.len());
    let n = a.len();
    let g = |i: int| sum(|j: int| f(i, j), n);
    let h = |i: int| sum(|j: int| r.at(a[i][j]) * r.at(b[j][i]), n);
    assert forall|i: int| 0 <= i < n implies #[trigger] g(i) == h(i) by {
        lemma_sum_congruent(|j: int| f(i, j), |j: int| r.at(a[i][j]) * r.at(b[j][i]), n);
    }
    lemma_sum_congruent(g, h, n);
}

/// What the weight of observation `i` stands for: 1 without weights.
pub open spec fn weight_of(r: Residues, w: Option<Seq<Double>>, i: int) -> int {
    match w {
        Some(v) => r.at(v[i]),
        None => 1,
    }
}

/// Rows of `p` numbers each.
pub open spec fn rows_of(x: Seq<Seq<Double>>, p: nat) -> bool {
    forall|i: int| 0 <= i < x.len() ==> (#[trigger] x[i]).len() == p
}

/// The cross-products weight every observation: entry `(b, c)` of `X'WX` is
/// `sum_i x_ib w_i x_ic`, and entry `c` of `X'Wy` is `sum_i x_ic w_i y_i`.
pub proof fn law_cross_products_are_weighted<F: Arithmetic>(
    r: Residues,
    x: Seq<Seq<Double>>,
    p: nat,
    y: Seq<Double>,
    w: Option<Seq<Double>>,
)
    requires
        r.exact::<F>(),
        rows_of(x, p),
        y.len() == x.len(),
        w matches Some(v) ==> v.len() == x.len(),
    ensures
        forall|c: int|
            0 <= c < p ==> r.same(
                r.at(#[trigger] xtwy_of::<F>(x, p, y, w)[c]),
                sum(|i: int| r.at(x[i][c]) * weight_of(r, w, i) * r.at(y[i]), x.len()),
            ),
        forall|b: int, c: int|
            0 <= b < p && 0 <= c < p ==> r.same(
                r.at(#[trigger] xtwx_of::<F>(x, p, w)[b][c]),
                sum(|i: int| r.at(x[i][b]) * weight_of(r, w, i) * r.at(x[i][c]), x.len()),
            ),
{
    let n = x.len();
    assert forall|c: int| 0 <= c < p implies r.same(
        r.at(#[trigger] xtwy_of::<F>(x, p, y, w)[c]),
        sum(|i: int| r.at(x[i][c]) * weight_of(r, w, i) * r.at(y[i]), n),
    ) by {
        let f = |i: int| r.at(x[i][c]) * weight_of(r, w, i) * r.at(y[i]);
        match w {
            Some(v) => {
                let row = weighted_xt_of::<F>(x, p, v)[c];
                let term = |k: int| times::<F>(row[k], y[k]);
                assert forall|i: int| 0 <= i < n implies r.same(r.at(#[trigger] term(i)), f(i)) by {
                    lemma_weighted::<F>(r, x[i][c], v[i], y[i]);
                }
                r.on_total::<F>(term, f, n);
                assert(xtwy_of::<F>(x, p, y, w)[c] == dot_of::<F>(row, y));
            },
            None => {
                let term = |i: int| times::<F>(x[i][c], y[i]);
                assert forall|i: int| 0 <= i < n implies r.same(r.at(#[trigger] term(i)), f(i)) by {
                    lemma_unweighted::<F>(r, x[i][c], y[i]);
                }
                r.on_total::<F>(term, f, n);
                assert(xtwy_of::<F>(x, p, y, w)[c] == total::<F>(term, n));
            },
        }
    }
    assert forall|b: int, c: int| 0 <= b < p && 0 <= c < p implies r.same(
        r.at(#[trigger] xtwx_of::<F>(x, p, w)[b][c]),
        sum(|i: int| r.at(x[i][b]) * weight_of(r, w, i) * r.at(x[i][c]), n),
    ) by {
        let f = |i: int| r.at(x[i][b]) * weight_of(r, w, i) * r.at(x[i][c]);
        match w {
            Some(v) => {
                let wxt = weighted_xt_of::<F>(x, p, v);
                let term = |k: int| times::<F>(wxt[b][k], x[k][c]);
                assert forall|i: int| 0 <= i < n implies r.same(r.at(#[trigger] term(i)), f(i)) by {
                    lemma_weighted::<F>(r, x[i][b], v[i], x[i][c]);
                }
                r.on_total::<F>(term, f, n);
                assert(xtwx_of::<F>(x, p, w)[b][c] == total::<F>(term, n));
            },
            None => {
                let term = |k: int| times::<F>(x[k][b], x[k][c]);
                assert forall|i: int| 0 <= i < n implies r.same(r.at(#[trigger] term(i)), f(i)) by {
                    lemma_unweighted::<F>(r, x[i][b], x[i][c]);
                }
                r.on_total::<F>(term, f, n);
                assert(xtwx_of::<F>(x, p, w)[b][c] == total::<F>(term, n));
            },
        }
    }
}

proof fn lemma_weighted<F: Arithmetic>(r: Residues, a: Double, w: Double, b: Double)
    requires
        r.exact::<F>(),
    ensures
        r.same(r.at(times::<F>(times::<F>(a, w), b)), r.at(a) * r.at(w) * r.at(b)),
{
    r.itself(r.at(a));
    r.itself(r.at(w));
    r.itself(r.at(b));
    r.on_times::<F>(a, w, r.at(a), r.at(w));
    r.on_times::<F>(times::<F>(a, w), b, r.at(a) * r.at(w), r.at(b));
}

proof fn lemma_unweighted<F: Arithmetic>(r: Residues, a: Double, b: Double)
    requires
        r.exact::<F>(),
    ensures
        r.same(r.at(times::<F>(a, b)), r.at(a) * 1 * r.at(b)),
{
    r.itself(r.at(a));
    r.itself(r.at(b));
    r.on_times::<F>(a, b, r.at(a), r.at(b));
}

/// A linear response is reproduced: where `y = X b`, the coefficients `b` solve
/// `(X'WX) b = X'Wy`, whatever the weights.
pub proof fn law_linear_response_is_reproduced<F: Arithmetic>(
    r: Residues,
    x: Seq<Seq<Double>>,
    p: nat,
    y: Seq<Double>,
    w: Option<Seq<Double>>,
    b: spec_fn(int) -> int,
)
    requires
        r.exact::<F>(),
        rows_of(x, p),
        y.len() == x.len(),
        w matches Some(v) ==> v.len() == x.len(),
        forall|i: int|
            0 <= i < x.len() ==> r.same(
                r.at(#[trigger] y[i]),
                sum(|c: int| r.at(x[i][c]) * b(c), p),
            ),
    ensures
        forall|k: int|
            0 <= k < p ==> r.same(
                sum(|c: int| r.at(xtwx_of::<F>(x, p, w)[k][c]) * b(c), p),
                r.at(#[trigger] xtwy_of::<F>(x, p, y, w)[k]),
            ),
{
    let n = x.len();
    law_cross_products_are_weighted::<F>(r, x, p, y, w);
    assert forall|k: int| 0 <= k < p implies r.same(
        sum(|c: int| r.at(xtwx_of::<F>(x, p, w)[k][c]) * b(c), p),
        r.at(#[trigger] xtwy_of::<F>(x, p, y, w)[k]),
    ) by {
        let a = |i: int| r.at(x[i][k]) * weight_of(r, w, i);
        let both = |c: int, i: int| a(i) * (r.at(x[i][c]) * b(c));
        // By columns of the matrix.
        let left = |c: int| r.at(xtwx_of::<F>(x, p, w)[k][c]) * b(c);
        let cols = |c: int| sum(|i: int| both(c, i), n);
        assert forall|c: int| 0 <= c < p implies r.same(#[trigger] left(c), cols(c)) by {
            let e = |i: int| r.at(x[i][k]) * weight_of(r, w, i) * r.at(x[i][c]);
            assert(r.same(r.at(xtwx_of::<F>(x, p, w)[k][c]), sum(e, n)));
            r.scaled(r.at(xtwx_of::<F>(x, p, w)[k][c]), sum(e, n), b(c));
            lemma_sum_scaled(b(c), e, n);
            let scaled = |i: int| b(c) * e(i);
            assert forall|i: int| 0 <= i < n implies #[trigger] scaled(i) == both(c, i) by {
                let (u, v, t) = (a(i), r.at(x[i][c]), b(c));
                assert(t * (u * v) == u * (v * t)) by (nonlinear_arith);
            }
            lemma_sum_congruent(scaled, |i: int| both(c, i), n);
            let s = sum(e, n);
            let t = b(c);
            assert(s * t == t * s) by (nonlinear_arith);
        }
        r.same_sums(left, cols, p);
        // By observations.
        lemma_sums_swapped(both, p, n);
        let rows = |i: int| sum(|c: int| both(c, i), p);
        let right = |i: int| r.at(x[i][k]) * weight_of(r, w, i) * r.at(y[i]);
        assert forall|i: int| 0 <= i < n implies r.same(#[trigger] rows(i), right(i)) by {
            let e = |c: int| r.at(x[i][c]) * b(c);
            lemma_sum_scaled(a(i), e, p);
            lemma_sum_congruent(|c: int| both(c, i), |c: int| a(i) * e(c), p);
            assert(r.same(r.at(y[i]), sum(e, p)));
            r.turned(r.at(y[i]), sum(e, p));
            r.scaled(sum(e, p), r.at(y[i]), a(i));
        }
        r.same_sums(rows, right, n);
        r.chained(sum(left, p), sum(cols, p), sum(right, n));
        let e = r.at(xtwy_of::<F>(x, p, y, w)[k]);
        assert(r.same(e, sum(right, n)));
        r.turned(e, sum(right, n));
        r.chained(sum(left, p), sum(right, n), e);
    }
}

/// `w` and `z` are a working pair around an observation of prior weight `prior`:
/// `d1` and `d2` are the derivatives of its deviance, `F d1 = -2 A` and
/// `F^2 d2 = 2 (A^2 - B F)` for the differences `A` and `B` between its cut points
/// and the probability `F`; `t` is half the curvature times the prior weight; the
/// weight is `t`, at least 1e-12, and the response one Newton step away.
pub open spec fn ocat_row_exact(
    r: Residues,
    eta: Double,
    prior: Double,
    c: CutValues,
    w: Double,
    z: Double,
    d1: Double,
    d2: Double,
    t: Double,
) -> bool {
    let f = r.at(c.f.max_spec(lit(MIN_POSITIVE)));
    let a = r.at(c.a.1) - r.at(c.a.0);
    let b = r.at(c.b.1) - r.at(c.b.0);
    let curvature = r.at(d2.max_spec(lit(E_M12)));
    &&& r.same(r.at(d1) * f, -2 * a)
    &&& r.same(r.at(d2) * f * f, 2 * (a * a - b * f))
    &&& r.same(2 * r.at(t), r.at(prior) * r.at(d2))
    &&& w == t.max_spec(lit(E_M12))
    &&& !r.same(curvature, 0) ==> r.same((r.at(eta) - r.at(z)) * curvature, r.at(d1))
}

/// The working pair of an observation with ordered categories is a Newton step of
/// its weighted deviance.
pub proof fn law_ocat_row_is_a_newton_step<F: Arithmetic>(
    r: Residues,
    eta: Double,
    prior: Double,
    c: CutValues,
)
    requires
        r.exact::<F>(),
        !r.same(r.at(c.f.max_spec(lit(MIN_POSITIVE))), 0),
    ensures
        ({
            let (w, z) = ocat_row_of::<F>(eta, prior, ocat_derivs_of::<F>(c));
            exists|d1: Double, d2: Double, t: Double| #[trigger]
                ocat_row_exact(r, eta, prior, c, w, z, d1, d2, t)
        }),
{
    let fd = c.f.max_spec(lit(MIN_POSITIVE));
    let f = r.at(fd);
    let a = r.at(c.a.1) - r.at(c.a.0);
    let b = r.at(c.b.1) - r.at(c.b.0);
    let ad = minus::<F>(c.a.1, c.a.0);
    let bd = minus::<F>(c.b.1, c.b.0);
    let (d1, d2) = ocat_derivs_of::<F>(c);
    let (w, z) = ocat_row_of::<F>(eta, prior, (d1, d2));
    let t = times::<F>(times::<F>(half(), d2), prior);
    r.constants::<F>();
    r.itself(f);
    r.itself(r.at(c.a.1));
    r.itself(r.at(c.a.0));
    r.itself(r.at(c.b.1));
    r.itself(r.at(c.b.0));
    r.on_minus::<F>(c.a.1, c.a.0, r.at(c.a.1), r.at(c.a.0));
    r.on_minus::<F>(c.b.1, c.b.0, r.at(c.b.1), r.at(c.b.0));
    assert(lit(MINUS_TWO) == two().neg_spec());
    r.on_neg::<F>(two(), 2);
    r.on_times::<F>(lit(MINUS_TWO), ad, -2, a);
    r.on_over::<F>(times::<F>(lit(MINUS_TWO), ad), fd, -2 * a, f);
    // The second derivative.
    let sq = times::<F>(ad, ad);
    let quo = over::<F>(sq, fd);
    let gap = minus::<F>(quo, bd);
    r.on_times::<F>(ad, ad, a, a);
    r.on_over::<F>(sq, fd, a * a, f);
    r.itself(r.at(quo));
    r.on_minus::<F>(quo, bd, r.at(quo), b);
    r.on_times::<F>(two(), gap, 2, r.at(quo) - b);
    r.on_over::<F>(times::<F>(two(), gap), fd, 2 * (r.at(quo) - b), f);
    r.scaled(r.at(d2) * f, 2 * (r.at(quo) - b), f);
    let q = r.at(quo);
    assert(2 * (q - b) * f == 2 * (q * f - b * f)) by (nonlinear_arith);
    r.itself(-(b * f));
    r.summed(q * f, a * a, -(b * f), -(b * f));
    r.scaled(q * f - b * f, a * a - b * f, 2);
    r.chained(r.at(d2) * f * f, 2 * (q * f - b * f), 2 * (a * a - b * f));
    // Weight and response.
    r.itself(r.at(d2));
    r.itself(r.at(prior));
    r.itself(r.at(eta));
    r.itself(r.at(d1));
    let hd = times::<F>(half(), d2);
    r.on_half::<F>(d2, r.at(d2));
    r.itself(r.at(hd));
    r.on_times::<F>(hd, prior, r.at(hd), r.at(prior));
    r.scaled(r.at(t), r.at(hd) * r.at(prior), 2);
    let (h, k) = (r.at(hd), r.at(prior));
    assert(2 * (h * k) == (2 * h) * k) by (nonlinear_arith);
    r.scaled(2 * h, r.at(d2), k);
    r.chained(2 * r.at(t), (2 * h) * k, r.at(d2) * k);
    let d2v = r.at(d2);
    assert(d2v * k == k * d2v) by (nonlinear_arith);
    let cd = d2.max_spec(lit(E_M12));
    if !r.same(r.at(cd), 0) {
        let step = over::<F>(d1, cd);
        r.itself(r.at(cd));
        r.on_over::<F>(d1, cd, r.at(d1), r.at(cd));
        r.itself(r.at(step));
        r.on_minus::<F>(eta, step, r.at(eta), r.at(step));
        let (e, s, zv) = (r.at(eta), r.at(step), r.at(z));
        r.scaled(zv, e - s, 1);
        r.itself(e);
        r.summed(e, e, -zv, -(e - s));
        r.scaled(e - zv, s, r.at(cd));
        r.chained((e - zv) * r.at(cd), s * r.at(cd), r.at(d1));
    }
    assert(ocat_row_exact(r, eta, prior, c, w, z, d1, d2, t));
}

/// Every row of the working pair of ordered categories is such a step, around the
/// cut points of its own category and with its own prior weight.
pub proof fn law_ocat_pair_is_a_newton_step<F: Arithmetic, O: OcatLoss>(
    r: Residues,
    alpha: Seq<Double>,
    cats: int,
    y: Seq<Double>,
    eta: Seq<Double>,
    prior: Seq<Double>,
    w: Seq<Double>,
    z: Seq<Double>,
    i: int,
)
    requires
        r.exact::<F>(),
        ocat_pair::<F, O>(alpha, cats, y, eta, prior, w, z),
        0 <= i < y.len(),
        forall|c: CutValues| #[trigger]
            cuts_read::<F, O>(alpha, category_of::<F>(y[i], cats), eta[i], c) ==> !r.same(
                r.at(c.f.max_spec(lit(MIN_POSITIVE))),
                0,
            ),
    ensures
        exists|c: CutValues, d1: Double, d2: Double, t: Double|
            cuts_read::<F, O>(alpha, category_of::<F>(y[i], cats), eta[i], c)
                && #[trigger] ocat_row_exact(r, eta[i], prior[i], c, w[i], z[i], d1, d2, t),
{
    let k = category_of::<F>(y[i], cats);
    assert(ocat_row_from::<F, O>(alpha, k, eta[i], prior[i], w[i], z[i]));
    let c = choose|c: CutValues| #[trigger]
        cuts_read::<F, O>(alpha, k, eta[i], c) && (w[i], z[i]) == ocat_row_of::<F>(
            eta[i],
            prior[i],
            ocat_derivs_of::<F>(c),
        );
    law_ocat_row_is_a_newton_step::<F>(r, eta[i], prior[i], c);
}

/// Weights add up: above the floor, the working weight of an observation is the sum
/// of those it has with the parts of its prior weight, and the response does not
/// depend on it.
pub proof fn law_ocat_weights_add_up<F: Arithmetic>(
    r: Residues,
    eta: Double,
    whole: Double,
    part: Double,
    rest: Double,
    d: (Double, Double),
)
    requires
        r.exact::<F>(),
        r.same(r.at(whole), r.at(part) + r.at(rest)),
        ocat_row_of::<F>(eta, whole, d).0 != lit(E_M12),
        ocat_row_of::<F>(eta, part, d).0 != lit(E_M12),
        ocat_row_of::<F>(eta, rest, d).0 != lit(E_M12),
    ensures
        r.same(
            r.at(ocat_row_of::<F>(eta, whole, d).0),
            r.at(ocat_row_of::<F>(eta, part, d).0) + r.at(ocat_row_of::<F>(eta, rest, d).0),
        ),
        ocat_row_of::<F>(eta, whole, d).1 == ocat_row_of::<F>(eta, part, d).1,
{
    let h = times::<F>(half(), d.1);
    r.itself(r.at(h));
    r.itself(r.at(part));
    r.itself(r.at(rest));
    let (hv, a, b) = (r.at(h), r.at(part), r.at(rest));
    r.on_times::<F>(h, whole, hv, a + b);
    r.on_times::<F>(h, part, hv, a);
    r.on_times::<F>(h, rest, hv, b);
    assert(hv * (a + b) == hv * a + hv * b) by (nonlinear_arith);
    let (u, v) = (r.at(times::<F>(h, part)), r.at(times::<F>(h, rest)));
    r.summed(u, hv * a, v, hv * b);
    r.turned(u + v, hv * a + hv * b);
    r.chained(r.at(times::<F>(h, whole)), hv * (a + b), u + v);
}

/// A weighted sum in which one weight is split is the sum in which its number
/// occurs twice.
proof fn lemma_split_total<F: Arithmetic>(
    r: Residues,
    prior: Seq<Double>,
    dev: Seq<Double>,
    k: int,
    part: Double,
    rest: Double,
)
    requires
        r.exact::<F>(),
        0 <= k < dev.len(),
        prior.len() == dev.len(),
        r.same(r.at(prior[k]), r.at(part) + r.at(rest)),
    ensures
        ({
            let (p2, d2) = (prior.update(k, part).push(rest), dev.push(dev[k]));
            r.same(
                r.at(total::<F>(|i: int| times::<F>(prior[i], dev[i]), dev.len())),
                r.at(total::<F>(|i: int| times::<F>(p2[i], d2[i]), d2.len())),
            )
        }),
{
    let n = dev.len();
    let (p2, d2) = (prior.update(k, part).push(rest), dev.push(dev[k]));
    let t1 = |i: int| times::<F>(prior[i], dev[i]);
    let t2 = |i: int| times::<F>(p2[i], d2[i]);
    let f1 = |i: int| r.at(prior[i]) * r.at(dev[i]);
    let f2 = |i: int| r.at(p2[i]) * r.at(d2[i]);
    assert forall|i: int| 0 <= i < n implies r.same(r.at(#[trigger] t1(i)), f1(i)) by {
        r.itself(r.at(prior[i]));
        r.itself(r.at(dev[i]));
        r.on_times::<F>(prior[i], dev[i], r.at(prior[i]), r.at(dev[i]));
    }
    assert forall|i: int| 0 <= i < n + 1 implies r.same(r.at(#[trigger] t2(i)), f2(i)) by {
        r.itself(r.at(p2[i]));
        r.itself(r.at(d2[i]));
        r.on_times::<F>(p2[i], d2[i], r.at(p2[i]), r.at(d2[i]));
    }
    r.on_total::<F>(t1, f1, n);
    r.on_total::<F>(t2, f2, n + 1);
    lemma_sum_changed(f1, f2, k, n);
    let (a, b, v, w) = (r.at(part), r.at(rest), r.at(dev[k]), r.at(prior[k]));
    assert(f2(n as int) == b * v);
    assert(f2(k) == a * v);
    assert((a + b) * v == a * v + b * v) by (nonlinear_arith);
    r.scaled(w, a + b, v);
    r.itself(sum(f1, n) - f1(k));
    r.summed(sum(f1, n) - f1(k), sum(f1, n) - f1(k), w * v, (a + b) * v);
    r.chained(r.at(total::<F>(t1, n)), sum(f1, n), sum(f2, n + 1));
    r.turned(r.at(total::<F>(t2, n + 1)), sum(f2, n + 1));
    r.chained(r.at(total::<F>(t1, n)), sum(f2, n + 1), r.at(total::<F>(t2, n + 1)));
}

/// An observation of prior weight `a + b` counts as two, of weights `a` and `b`: the
/// deviance of ordered categories is that of the data with the row repeated.
pub proof fn law_ocat_prior_weight_counts_copies<F: Arithmetic, O: OcatLoss>(
    r: Residues,
    loss: O,
    y: Seq<Double>,
    eta: Seq<Double>,
    prior: Seq<Double>,
    d: Double,
    k: int,
    part: Double,
    rest: Double,
)
    requires
        r.exact::<F>(),
        ocat_deviance_of::<F, O>(loss, y, eta, prior, d),
        0 <= k < y.len(),
        eta.len() == y.len(),
        prior.len() == y.len(),
        r.same(r.at(prior[k]), r.at(part) + r.at(rest)),
    ensures
        exists|e: Double| #[trigger]
            ocat_deviance_of::<F, O>(
                loss,
                y.push(y[k]),
                eta.push(eta[k]),
                prior.update(k, part).push(rest),
                e,
            ) && r.same(r.at(d), r.at(e)),
{
    let dev = choose|dev: Seq<Double>|
        #![trigger dev.len()]
        dev.len() == y.len() && (forall|i: int|
            0 <= i < y.len() ==> call_ensures(O::deviance_per_obs, (&loss, y[i], eta[i]), #[trigger] dev[i]))
            && d == total::<F>(|i: int| times::<F>(prior[i], dev[i]), y.len());
    let (y2, eta2) = (y.push(y[k]), eta.push(eta[k]));
    let (prior2, dev2) = (prior.update(k, part).push(rest), dev.push(dev[k]));
    let e = total::<F>(|i: int| times::<F>(prior2[i], dev2[i]), y2.len());
    assert forall|i: int| 0 <= i < y2.len() implies call_ensures(
        O::deviance_per_obs,
        (&loss, y2[i], eta2[i]),
        #[trigger] dev2[i],
    ) by {
        if i < y.len() {
            assert(dev2[i] == dev[i]);
        } else {
            assert(dev2[i] == dev[k]);
        }
    }
    assert(dev2.len() == y2.len());
    assert(ocat_deviance_of::<F, O>(loss, y2, eta2, prior2, e));
    lemma_split_total::<F>(r, prior, dev, k, part, rest);
}

/// An observation of prior weight `a + b` counts as two, of weights `a` and `b`: the
/// deviance is that of the data with the row repeated.
pub proof fn law_prior_weight_counts_copies<F: Arithmetic, L: Loss>(
    r: Residues,
    loss: L,
    y: Seq<Double>,
    mu: Seq<Double>,
    prior: Seq<Double>,
    d: Double,
    k: int,
    part: Double,
    rest: Double,
)
    requires
        r.exact::<F>(),
        deviance_of::<F, L>(loss, y, mu, prior, d),
        0 <= k < y.len(),
        mu.len() == y.len(),
        prior.len() == y.len(),
        r.same(r.at(prior[k]), r.at(part) + r.at(rest)),
    ensures
        exists|e: Double| #[trigger]
            deviance_of::<F, L>(
                loss,
                y.push(y[k]),
                mu.push(mu[k]),
                prior.update(k, part).push(rest),
                e,
            ) && r.same(r.at(d), r.at(e)),
{
    let dev = choose|dev: Seq<Double>|
        #![trigger dev.len()]
        dev.len() == y.len() && (forall|i: int|
            0 <= i < y.len() ==> call_ensures(L::deviance_per_obs, (&loss, y[i], mu[i]), #[trigger] dev[i]))
            && d == total::<F>(|i: int| times::<F>(prior[i], dev[i]), y.len());
    let (y2, mu2) = (y.push(y[k]), mu.push(mu[k]));
    let (prior2, dev2) = (prior.update(k, part).push(rest), dev.push(dev[k]));
    let e = total::<F>(|i: int| times::<F>(prior2[i], dev2[i]), y2.len());
    assert forall|i: int| 0 <= i < y2.len() implies call_ensures(
        L::deviance_per_obs,
        (&loss, y2[i], mu2[i]),
        #[trigger] dev2[i],
    ) by {
        if i < y.len() {
            assert(dev2[i] == dev[i]);
        } else {
            assert(dev2[i] == dev[k]);
        }
    }
    assert(dev2.len() == y2.len());
    assert(deviance_of::<F, L>(loss, y2, mu2, prior2, e));
    lemma_split_total::<F>(r, prior, dev, k, part, rest);
}

/// A row of weight `a + b` counts as two, of weights `a` and `b`, in the system that
/// is solved: both cross-products are those of the data with the row repeated.
pub proof fn law_split_row_keeps_the_system<F: Arithmetic>(
    r: Residues,
    x: Seq<Seq<Double>>,
    p: nat,
    y: Seq<Double>,
    w: Seq<Double>,
    k: int,
    part: Double,
    rest: Double,
)
    requires
        r.exact::<F>(),
        rows_of(x, p),
        y.len() == x.len(),
        w.len() == x.len(),
        0 <= k < x.len(),
        r.same(r.at(w[k]), r.at(part) + r.at(rest)),
    ensures
        ({
            let (x2, y2) = (x.push(x[k]), y.push(y[k]));
            let w2 = w.update(k, part).push(rest);
            &&& forall|c: int|
                0 <= c < p ==> r.same(
                    r.at(#[trigger] xtwy_of::<F>(x, p, y, Some(w))[c]),
                    r.at(xtwy_of::<F>(x2, p, y2, Some(w2))[c]),
                )
            &&& forall|b: int, c: int|
                0 <= b < p && 0 <= c < p ==> r.same(
                    r.at(#[trigger] xtwx_of::<F>(x, p, Some(w))[b][c]),
                    r.at(xtwx_of::<F>(x2, p, Some(w2))[b][c]),
                )
        }),
{
    let n = x.len();
    let (x2, y2) = (x.push(x[k]), y.push(y[k]));
    let w2 = w.update(k, part).push(rest);
    law_cross_products_are_weighted::<F>(r, x, p, y, Some(w));
    law_cross_products_are_weighted::<F>(r, x2, p, y2, Some(w2));
    assert forall|c: int| 0 <= c < p implies r.same(
        r.at(#[trigger] xtwy_of::<F>(x, p, y, Some(w))[c]),
        r.at(xtwy_of::<F>(x2, p, y2, Some(w2))[c]),
    ) by {
        let u = |i: int| r.at(x2[i][c]);
        let v = |i: int| r.at(y2[i]);
        let f1 = |i: int| r.at(x[i][c]) * weight_of(r, Some(w), i) * r.at(y[i]);
        let f2 = |i: int| r.at(x2[i][c]) * weight_of(r, Some(w2), i) * r.at(y2[i]);
        lemma_split_sum(r, u, v, w, k, part, rest, f1, f2, n);
        let (e1, e2) = (
            r.at(xtwy_of::<F>(x, p, y, Some(w))[c]),
            r.at(xtwy_of::<F>(x2, p, y2, Some(w2))[c]),
        );
        assert(r.same(e1, sum(f1, n)));
        assert(r.same(e2, sum(f2, n + 1)));
        r.chained(e1, sum(f1, n), sum(f2, n + 1));
        r.turned(e2, sum(f2, n + 1));
        r.chained(e1, sum(f2, n + 1), e2);
    }
    assert forall|b: int, c: int| 0 <= b < p && 0 <= c < p implies r.same(
        r.at(#[trigger] xtwx_of::<F>(x, p, Some(w))[b][c]),
        r.at(xtwx_of::<F>(x2, p, Some(w2))[b][c]),
    ) by {
        let u = |i: int| r.at(x2[i][b]);
        let v = |i: int| r.at(x2[i][c]);
        let f1 = |i: int| r.at(x[i][b]) * weight_of(r, Some(w), i) * r.at(x[i][c]);
        let f2 = |i: int| r.at(x2[i][b]) * weight_of(r, Some(w2), i) * r.at(x2[i][c]);
        lemma_split_sum(r, u, v, w, k, part, rest, f1, f2, n);
        let (e1, e2) = (
            r.at(xtwx_of::<F>(x, p, Some(w))[b][c]),
            r.at(xtwx_of::<F>(x2, p, Some(w2))[b][c]),
        );
        assert(r.same(e1, sum(f1, n)));
        assert(r.same(e2, sum(f2, n + 1)));
        r.chained(e1, sum(f1, n), sum(f2, n + 1));
        r.turned(e2, sum(f2, n + 1));
        r.chained(e1, sum(f2, n + 1), e2);
    }
}

proof fn lemma_split_sum(
    r: Residues,
    u: spec_fn(int) -> int,
    v: spec_fn(int) -> int,
    w: Seq<Double>,
    k: int,
    part: Double,
    rest: Double,
    f1: spec_fn(int) -> int,
    f2: spec_fn(int) -> int,
    n: nat,
)
    requires
        0 <= k < n,
        w.len() == n,
        r.same(r.at(w[k]), r.at(part) + r.at(rest)),
        u(n as int) == u(k),
        v(n as int) == v(k),
        forall|i: int| 0 <= i < n ==> #[trigger] f1(i) == u(i) * r.at(w[i]) * v(i),
        forall|i: int|
            0 <= i <= n ==> #[trigger] f2(i) == u(i) * r.at(w.update(k, part).push(rest)[i]) * v(i),
    ensures
        r.same(sum(f1, n), sum(f2, n + 1)),
{
    lemma_sum_changed(f1, f2, k, n);
    let (a, b, s, uu, vv) = (r.at(part), r.at(rest), r.at(w[k]), u(k), v(k));
    assert(f2(n as int) == uu * b * vv);
    assert(f2(k) == uu * a * vv);
    assert(f1(k) == uu * s * vv);
    assert(uu * (a + b) * vv == uu * a * vv + uu * b * vv) by (nonlinear_arith);
    r.scaled(s, a + b, uu);
    r.scaled(uu * s, uu * (a + b), vv);
    r.itself(sum(f1, n) - f1(k));
    r.summed(
        sum(f1, n) - f1(k),
        sum(f1, n) - f1(k),
        uu * s * vv,
        uu * (a + b) * vv,
    );
}

/// The combined penalty is `sum_j exp(rho_j) S_j`.
pub proof fn law_combined_penalty<F: Arithmetic>(
    r: Residues,
    s_list: Seq<Matrix>,
    rho: Seq<Double>,
    p: nat,
    i: int,
    k: int,
)
    requires
        r.exact::<F>(),
        0 <= i < p,
        0 <= k < p,
    ensures
        r.same(
            r.at(combined_s_of::<F>(s_list, rho, p)[i][k]),
            sum(|j: int| r.at(exp::<F>(rho[j])) * r.at(s_list[j]@[i][k]), rho.len()),
        ),
{
    let term = |j: int| times::<F>(exp::<F>(rho[j]), s_list[j]@[i][k]);
    let f = |j: int| r.at(exp::<F>(rho[j])) * r.at(s_list[j]@[i][k]);
    assert forall|j: int| 0 <= j < rho.len() implies r.same(r.at(#[trigger] term(j)), f(j)) by {
        r.itself(r.at(exp::<F>(rho[j])));
        r.itself(r.at(s_list[j]@[i][k]));
        r.on_times::<F>(
            exp::<F>(rho[j]),
            s_list[j]@[i][k],
            r.at(exp::<F>(rho[j])),
            r.at(s_list[j]@[i][k]),
        );
    }
    r.on_total::<F>(term, f, rho.len());
    assert(combined_s_of::<F>(s_list, rho, p)[i][k] == total::<F>(term, rho.len()));
}

/// Entry `(b, c)` of `X'WX + sum_j exp(rho_j) S_j`.
pub open spec fn system_int<F: Arithmetic>(
    r: Residues,
    x: Seq<Seq<Double>>,
    w: Option<Seq<Double>>,
    s_list: Seq<Matrix>,
    rho: Seq<Double>,
    b: int,
    c: int,
) -> int {
    sum(|i: int| r.at(x[i][b]) * weight_of(r, w, i) * r.at(x[i][c]), x.len()) + sum(
        |j: int| r.at(exp::<F>(rho[j])) * r.at(s_list[j]@[b][c]),
        rho.len(),
    )
}

/// The system of a Gaussian fit is `X'WX + sum_j exp(rho_j) S_j`.
pub proof fn law_gaussian_system<F: Arithmetic>(
    r: Residues,
    x: Seq<Seq<Double>>,
    p: nat,
    w: Option<Seq<Double>>,
    s_list: Seq<Matrix>,
    rho: Seq<Double>,
    b: int,
    c: int,
)
    requires
        r.exact::<F>(),
        rows_of(x, p),
        w matches Some(v) ==> v.len() == x.len(),
        0 <= b < p,
        0 <= c < p,
    ensures
        r.same(
            r.at(
                mat_plus_of::<F>(xtwx_of::<F>(x, p, w), combined_s_of::<F>(s_list, rho, p))[b][c],
            ),
            system_int::<F>(r, x, w, s_list, rho, b, c),
        ),
{
    law_cross_products_are_weighted::<F>(r, x, p, Seq::new(x.len(), |i: int| x[i][b]), w);
    law_combined_penalty::<F>(r, s_list, rho, p, b, c);
    let (u, v) = (xtwx_of::<F>(x, p, w)[b][c], combined_s_of::<F>(s_list, rho, p)[b][c]);
    r.on_plus::<F>(
        u,
        v,
        sum(|i: int| r.at(x[i][b]) * weight_of(r, w, i) * r.at(x[i][c]), x.len()),
        sum(|j: int| r.at(exp::<F>(rho[j])) * r.at(s_list[j]@[b][c]), rho.len()),
    );
    assert(mat_plus_of::<F>(xtwx_of::<F>(x, p, w), combined_s_of::<F>(s_list, rho, p))[b][c]
        == plus::<F>(u, v));
}

/// The system of a reweighted step is `X'WX + sum_j exp(rho_j) S_j` at the working
/// weights, and its right-hand side `X'Wz`.
pub proof fn law_reweighted_system<F: Arithmetic, L: Loss, K: Link, V: VarianceFn>(
    r: Residues,
    inner: PirlsInner<L, K, V>,
    rho: Seq<Double>,
    w: Seq<Double>,
    z: Seq<Double>,
    b: int,
    c: int,
)
    requires
        r.exact::<F>(),
        rows_of(inner.x_design@, inner.x_design.cols as nat),
        w.len() == inner.x_design@.len(),
        z.len() == inner.x_design@.len(),
        0 <= b < inner.x_design.cols,
        0 <= c < inner.x_design.cols,
    ensures
        ({
            let x = inner.x_design@;
            let p = inner.x_design.cols as nat;
            let a = system_int::<F>(r, x, Some(w), inner.s_list@, rho, b, c);
            &&& r.same(
                r.at(inner.system::<F>(combined_s_of::<F>(inner.s_list@, rho, p), w)[b][c]),
                a,
            )
            &&& r.same(r.at(inner.penalised::<F>(rho, w)[b][c]), a)
            &&& r.same(
                r.at(inner.right_hand::<F>(w, z)[c]),
                sum(|i: int| r.at(x[i][c]) * r.at(w[i]) * r.at(z[i]), x.len()),
            )
        }),
{
    let x = inner.x_design@;
    let p = inner.x_design.cols as nat;
    law_cross_products_are_weighted::<F>(r, x, p, z, Some(w));
    law_combined_penalty::<F>(r, inner.s_list@, rho, p, b, c);
    let s = combined_s_of::<F>(inner.s_list@, rho, p);
    lemma_penalised::<F>(r, x, p, w, s, b, c);
    let rhs = xtwy_of::<F>(x, p, z, Some(w));
    assert(inner.right_hand::<F>(w, z)[c] == rhs[c]);
    let f = |i: int| r.at(x[i][c]) * weight_of(r, Some(w), i) * r.at(z[i]);
    let g = |i: int| r.at(x[i][c]) * r.at(w[i]) * r.at(z[i]);
    lemma_sum_congruent(f, g, x.len());
    let d = sum(|i: int| r.at(x[i][b]) * weight_of(r, Some(w), i) * r.at(x[i][c]), x.len());
    let pen = sum(|j: int| r.at(exp::<F>(rho[j])) * r.at(inner.s_list@[j]@[b][c]), rho.len());
    r.itself(d);
    r.summed(d, d, r.at(s[b][c]), pen);
    r.chained(
        r.at(add_penalty_of::<F>(xtwx_of::<F>(x, p, Some(w)), s, one())[b][c]),
        d + r.at(s[b][c]),
        d + pen,
    );
}

/// A cross-product with a penalty added, entry by entry.
proof fn lemma_penalised<F: Arithmetic>(
    r: Residues,
    x: Seq<Seq<Double>>,
    p: nat,
    w: Seq<Double>,
    s: Seq<Seq<Double>>,
    b: int,
    c: int,
)
    requires
        r.exact::<F>(),
        rows_of(x, p),
        w.len() == x.len(),
        0 <= b < p,
        0 <= c < p,
    ensures
        r.same(
            r.at(add_penalty_of::<F>(xtwx_of::<F>(x, p, Some(w)), s, one())[b][c]),
            sum(|i: int| r.at(x[i][b]) * weight_of(r, Some(w), i) * r.at(x[i][c]), x.len()) + r.at(
                s[b][c],
            ),
        ),
{
    law_cross_products_are_weighted::<F>(r, x, p, Seq::new(x.len(), |i: int| x[i][b]), Some(w));
    r.constants::<F>();
    let m = xtwx_of::<F>(x, p, Some(w));
    r.itself(r.at(s[b][c]));
    r.on_times::<F>(one(), s[b][c], 1, r.at(s[b][c]));
    r.on_plus::<F>(
        m[b][c],
        times::<F>(one(), s[b][c]),
        sum(|i: int| r.at(x[i][b]) * weight_of(r, Some(w), i) * r.at(x[i][c]), x.len()),
        1 * r.at(s[b][c]),
    );
    assert(add_penalty_of::<F>(m, s, one())[b][c] == plus::<F>(m[b][c], times::<F>(one(), s[b][c])));
}

/// The working pair of an observation is a scoring step: the weight is the prior
/// weight times `1 / (V g'^2)` times the ratio `a` of observed to expected
/// curvature, the response `eta + (y - mu) g' / a`. The ratio is 1 under Fisher
/// weights, and under Newton weights `1 + (y - mu) (V'/V + g''/g')` where that is
/// positive and finite.
pub open spec fn irls_row_exact(
    r: Residues,
    newton: bool,
    y: Double,
    mu: Double,
    eta: Double,
    prior: Double,
    s: RowShape,
    w: Double,
    z: Double,
    ratio: Double,
    used: int,
) -> bool {
    let v = r.at(floored_variance(s));
    let (g1, e) = (r.at(s.g1), r.at(y) - r.at(mu));
    &&& r.same((r.at(ratio) - 1) * (v * g1), e * (r.at(s.v1) * g1 + r.at(s.g2) * v))
    &&& used == if newton && zero().below(ratio) && ratio.finite() {
        r.at(ratio)
    } else {
        1
    }
    &&& r.same(r.at(w) * (v * g1 * g1), r.at(prior) * used)
    &&& !r.same(used, 0) ==> r.same((r.at(z) - r.at(eta)) * used, e * g1)
}

/// The working pair of an observation is a scoring step of its weighted
/// likelihood.
pub proof fn law_working_pair_is_a_scoring_step<F: Arithmetic>(
    r: Residues,
    newton: bool,
    y: Double,
    mu: Double,
    eta: Double,
    prior: Double,
    s: RowShape,
)
    requires
        r.exact::<F>(),
        !r.same(r.at(floored_variance(s)), 0),
        !r.same(r.at(s.g1), 0),
    ensures
        ({
            let (w, z) = irls_row_of::<F>(newton, y, mu, eta, prior, s);
            exists|ratio: Double, used: int| #[trigger]
                irls_row_exact(r, newton, y, mu, eta, prior, s, w, z, ratio, used)
        }),
{
    let fv = floored_variance(s);
    let (v, g1, g2, v1) = (r.at(fv), r.at(s.g1), r.at(s.g2), r.at(s.v1));
    let e = r.at(y) - r.at(mu);
    r.constants::<F>();
    r.itself(v);
    r.itself(g1);
    r.itself(g2);
    r.itself(v1);
    r.itself(r.at(y));
    r.itself(r.at(mu));
    r.itself(r.at(eta));
    r.itself(r.at(prior));
    let cd = minus::<F>(y, mu);
    r.on_minus::<F>(y, mu, r.at(y), r.at(mu));
    // The Fisher weight.
    let vg = times::<F>(fv, s.g1);
    r.on_times::<F>(fv, s.g1, v, g1);
    let vgg = times::<F>(vg, s.g1);
    r.on_times::<F>(vg, s.g1, v * g1, g1);
    let iv = r.inverse::<F>(fv, v);
    let ig = r.inverse::<F>(s.g1, g1);
    r.product_not_zero(v, g1, iv);
    r.product_not_zero(g1, v * g1, ig);
    let wfd = over::<F>(one(), vgg);
    r.on_over::<F>(one(), vgg, 1, v * g1 * g1);
    let wf = r.at(wfd);
    r.itself(wf);
    let m = v * g1 * g1;
    // The ratio.
    let (ad, bd) = (over::<F>(s.v1, fv), over::<F>(s.g2, s.g1));
    r.on_over::<F>(s.v1, fv, v1, v);
    r.on_over::<F>(s.g2, s.g1, g2, g1);
    let (a, b) = (r.at(ad), r.at(bd));
    r.itself(a);
    r.itself(b);
    r.on_plus::<F>(ad, bd, a, b);
    r.on_times::<F>(cd, plus::<F>(ad, bd), e, a + b);
    let ratio = alpha_of::<F>(y, mu, s);
    r.on_plus::<F>(one(), times::<F>(cd, plus::<F>(ad, bd)), 1, e * (a + b));
    let al = r.at(ratio);
    r.itself(-1);
    r.summed(al, 1 + e * (a + b), -1, -1);
    r.scaled(al - 1, e * (a + b), v * g1);
    let vg1 = v * g1;
    assert(e * (a + b) * vg1 == e * ((a * v) * g1 + (b * g1) * v)) by (nonlinear_arith)
        requires
            vg1 == v * g1,
    ;
    r.scaled(a * v, v1, g1);
    r.scaled(b * g1, g2, v);
    r.summed((a * v) * g1, v1 * g1, (b * g1) * v, g2 * v);
    r.scaled((a * v) * g1 + (b * g1) * v, v1 * g1 + g2 * v, e);
    r.chained((al - 1) * vg1, e * (a + b) * vg1, e * (v1 * g1 + g2 * v));
    // Weight and response.
    let (w, z) = irls_row_of::<F>(newton, y, mu, eta, prior, s);
    let pw = times::<F>(prior, wfd);
    let pv = r.at(prior);
    r.on_times::<F>(prior, wfd, pv, wf);
    let cg = times::<F>(cd, s.g1);
    r.on_times::<F>(cd, s.g1, e, g1);
    r.itself(al);
    if newton && zero().below(ratio) && ratio.finite() {
        r.on_times::<F>(pw, ratio, pv * wf, al);
        r.scaled(r.at(w), pv * wf * al, m);
        assert(pv * wf * al * m == (pv * al) * (wf * m)) by (nonlinear_arith);
        r.scaled(wf * m, 1, pv * al);
        r.chained(r.at(w) * m, (pv * al) * (wf * m), (pv * al) * 1);
        if !r.same(al, 0) {
            let sd = over::<F>(cg, ratio);
            r.on_over::<F>(cg, ratio, e * g1, al);
            r.itself(r.at(sd));
            r.on_plus::<F>(eta, sd, r.at(eta), r.at(sd));
            r.itself(-r.at(eta));
            r.summed(r.at(z), r.at(eta) + r.at(sd), -r.at(eta), -r.at(eta));
            r.scaled(r.at(z) - r.at(eta), r.at(sd), al);
            r.chained((r.at(z) - r.at(eta)) * al, r.at(sd) * al, e * g1);
        }
        assert(irls_row_exact(r, newton, y, mu, eta, prior, s, w, z, ratio, al));
    } else {
        r.scaled(r.at(w), pv * wf, m);
        assert(pv * wf * m == pv * (wf * m)) by (nonlinear_arith);
        r.scaled(wf * m, 1, pv);
        r.chained(r.at(w) * m, pv * (wf * m), pv * 1);
        r.on_plus::<F>(eta, cg, r.at(eta), e * g1);
        r.itself(-r.at(eta));
        r.summed(r.at(z), r.at(eta) + e * g1, -r.at(eta), -r.at(eta));
        assert(irls_row_exact(r, newton, y, mu, eta, prior, s, w, z, ratio, 1));
    }
}

/// Every row of a working pair is such a step, with the observation's own mean,
/// linear predictor and prior weight.
pub proof fn law_working_pairs_are_scoring_steps<F: Arithmetic, K: Link, V: VarianceFn>(
    r: Residues,
    link: K,
    variance: V,
    newton: bool,
    y: Seq<Double>,
    mu: Seq<Double>,
    eta: Seq<Double>,
    prior: Seq<Double>,
    w: Seq<Double>,
    z: Seq<Double>,
    i: int,
)
    requires
        r.exact::<F>(),
        standard_pair::<F, K, V>(link, variance, newton, y, mu, eta, prior, w, z),
        0 <= i < y.len(),
        forall|s: RowShape| #[trigger]
            row_read::<K, V>(link, variance, mu[i], s) ==> !r.same(r.at(floored_variance(s)), 0)
                && !r.same(r.at(s.g1), 0),
    ensures
        exists|s: RowShape, ratio: Double, used: int|
            row_read::<K, V>(link, variance, mu[i], s) && #[trigger] irls_row_exact(
                r,
                newton,
                y[i],
                mu[i],
                eta[i],
                prior[i],
                s,
                w[i],
                z[i],
                ratio,
                used,
            ),
{
    assert(row_from::<F, K, V>(
        link,
        variance,
        newton,
        (y[i], mu[i], eta[i], prior[i]),
        w[i],
        z[i],
    ));
    let s = choose|s: RowShape| #[trigger]
        row_read::<K, V>(link, variance, mu[i], s) && (w[i], z[i]) == irls_row_of::<F>(
            newton,
            y[i],
            mu[i],
            eta[i],
            prior[i],
            s,
        );
    law_working_pair_is_a_scoring_step::<F>(r, newton, y[i], mu[i], eta[i], prior[i], s);
}

/// The largest change is no smaller than any change that is a number, and it is
/// none or one of the changes.
pub proof fn law_largest_change<F: Arithmetic>(a: Seq<Double>, b: Seq<Double>, n: nat)
    ensures
        !max_change_upto::<F>(a, b, n).nan(),
        !max_change_upto::<F>(a, b, n).negative(),
        forall|i: int|
            0 <= i < n && !(#[trigger] minus::<F>(a[i], b[i])).nan() ==> minus::<F>(
                a[i],
                b[i],
            ).abs_spec().at_most(max_change_upto::<F>(a, b, n)),
        max_change_upto::<F>(a, b, n) == zero() || exists|i: int|
            0 <= i < n && max_change_upto::<F>(a, b, n) == (#[trigger] minus::<F>(
                a[i],
                b[i],
            )).abs_spec(),
    decreases n,
{
    if n > 0 {
        law_largest_change::<F>(a, b, (n - 1) as nat);
        if max_change_upto::<F>(a, b, n) == minus::<F>(a[n - 1], b[n - 1]).abs_spec() {
        } else {
            assert(max_change_upto::<F>(a, b, n) == max_change_upto::<F>(a, b, (n - 1) as nat));
        }
    }
}

/// Multiplying all weights by one constant multiplies both cross-products by it, so
/// without a penalty the same coefficients solve the system.
pub proof fn law_common_factor_of_the_weights<F: Arithmetic>(
    r: Residues,
    x: Seq<Seq<Double>>,
    p: nat,
    y: Seq<Double>,
    w: Seq<Double>,
    v: Seq<Double>,
    k: int,
    b: int,
    c: int,
)
    requires
        r.exact::<F>(),
        rows_of(x, p),
        y.len() == x.len(),
        w.len() == x.len(),
        v.len() == x.len(),
        0 <= b < p,
        0 <= c < p,
        forall|i: int| 0 <= i < w.len() ==> r.same(r.at(#[trigger] v[i]), k * r.at(w[i])),
    ensures
        r.same(
            r.at(xtwx_of::<F>(x, p, Some(v))[b][c]),
            k * r.at(xtwx_of::<F>(x, p, Some(w))[b][c]),
        ),
        r.same(
            r.at(xtwy_of::<F>(x, p, y, Some(v))[c]),
            k * r.at(xtwy_of::<F>(x, p, y, Some(w))[c]),
        ),
{
    law_cross_products_are_weighted::<F>(r, x, p, y, Some(w));
    law_cross_products_are_weighted::<F>(r, x, p, y, Some(v));
    let f = |i: int| r.at(x[i][b]) * weight_of(r, Some(w), i) * r.at(x[i][c]);
    let g = |i: int| r.at(x[i][b]) * weight_of(r, Some(v), i) * r.at(x[i][c]);
    lemma_common_factor(
        r,
        |i: int| r.at(x[i][b]),
        |i: int| r.at(x[i][c]),
        w,
        v,
        k,
        f,
        g,
        r.at(xtwx_of::<F>(x, p, Some(w))[b][c]),
        r.at(xtwx_of::<F>(x, p, Some(v))[b][c]),
    );
    let f2 = |i: int| r.at(x[i][c]) * weight_of(r, Some(w), i) * r.at(y[i]);
    let g2 = |i: int| r.at(x[i][c]) * weight_of(r, Some(v), i) * r.at(y[i]);
    lemma_common_factor(
        r,
        |i: int| r.at(x[i][c]),
        |i: int| r.at(y[i]),
        w,
        v,
        k,
        f2,
        g2,
        r.at(xtwy_of::<F>(x, p, y, Some(w))[c]),
        r.at(xtwy_of::<F>(x, p, y, Some(v))[c]),
    );
}

proof fn lemma_common_factor(
    r: Residues,
    a: spec_fn(int) -> int,
    b: spec_fn(int) -> int,
    w: Seq<Double>,
    v: Seq<Double>,
    k: int,
    f: spec_fn(int) -> int,
    g: spec_fn(int) -> int,
    ew: int,
    ev: int,
)
    requires
        v.len() == w.len(),
        forall|i: int| 0 <= i < w.len() ==> r.same(r.at(#[trigger] v[i]), k * r.at(w[i])),
        forall|i: int| 0 <= i < w.len() ==> #[trigger] f(i) == a(i) * r.at(w[i]) * b(i),
        forall|i: int| 0 <= i < w.len() ==> #[trigger] g(i) == a(i) * r.at(v[i]) * b(i),
        r.same(ew, sum(f, w.len())),
        r.same(ev, sum(g, w.len())),
    ensures
        r.same(ev, k * ew),
{
    let n = w.len();
    let kf = |i: int| k * f(i);
    assert forall|i: int| 0 <= i < n implies r.same(#[trigger] g(i), kf(i)) by {
        let (x, y, s, t) = (a(i), b(i), r.at(w[i]), r.at(v[i]));
        assert(r.same(r.at(v[i]), k * r.at(w[i])));
        r.scaled(t, k * s, x);
        r.scaled(x * t, x * (k * s), y);
        assert(x * (k * s) * y == k * (x * s * y)) by (nonlinear_arith);
        assert(f(i) == x * s * y);
    }
    r.same_sums(g, kf, n);
    lemma_sum_scaled(k, f, n);
    r.turned(ew, sum(f, n));
    r.scaled(sum(f, n), ew, k);
    r.chained(ev, sum(g, n), k * sum(f, n));
    r.chained(ev, k * sum(f, n), k * ew);
}

} // verus!
