//! Laws of solving and of the weights of inner fits, in exact arithmetic.

use vstd::prelude::*;

use crate::arith::{exp, ln, minus, over, plus, times, total, total_from, Arithmetic};
use crate::dense::{
    add_penalty_of, back_solution, chol_logdet_of, dot_of, forward_solution, gram_of, less_terms,
    mat_mul_of, mat_plus_of, mat_t_vec_of, mat_vec_of, max_diag_upto, relative_ridge_of,
    scaled_rows_of, symmetrised_of, weighted_xt_of,
};
use crate::double::{lit, one, two, zero, Double, E_M12, E_M300, INF_BITS, MINUS_TWO};
use crate::exact::{lemma_sum_congruent, sum, Residues};
use crate::inner::armijo::{
    along_of, difference_of, elf_final_row, elf_objective, elf_read, elf_slope_of, elf_system_of,
    elf_weight_of, ElfLoss, ElfParams, ElfParts, ElfSystem,
};
use crate::inner::closed_form::rss_of;
use crate::inner::gam_fit5::eta_start_of;
use crate::inner::laws::{dot_int, law_dot_product, rows_of, weight_of};
use crate::inner::pirls::curvature::{
    a1_row_of, chol_log_det_spec, dw_deta_of, eig_log_det_spec, eta1_of, leverage_of, mean_step,
    score_curvature_of, weight_at, RowJet,
};
use crate::inner::pirls::{alpha_of, fisher_weight_of, floored_variance, RowShape};
use crate::inner::{half_way_of, working_rss_of};
use crate::matrix::Matrix;
use crate::score::hess_ift::dev_grad_of;
use crate::score::hessian_laws::{
    apply, grid_ints, ints, lemma_dot_at, lemma_ints, lemma_mat_mul_at, lemma_mat_vec_at, product,
    vec_at,
};
use crate::score::shape_aware::rho_gradient::observed_system_of;

verus! {

/// A number less some terms.
pub proof fn lemma_less_terms<F: Arithmetic>(
    r: Residues,
    start: Double,
    term: spec_fn(int) -> Double,
    f: spec_fn(int) -> int,
    n: nat,
)
    requires
        r.exact::<F>(),
        forall|k: int| 0 <= k < n ==> r.same(r.at(#[trigger] term(k)), f(k)),
    ensures
        r.same(r.at(less_terms::<F>(start, term, n)), r.at(start) - sum(f, n)),
    decreases n,
{
    if n == 0 {
        r.itself(r.at(start));
    } else {
        let m = (n - 1) as nat;
        lemma_less_terms::<F>(r, start, term, f, m);
        assert(r.same(r.at(term(n - 1)), f(n - 1)));
        r.on_minus::<F>(
            less_terms::<F>(start, term, m),
            term(n - 1),
            r.at(start) - sum(f, m),
            f(n - 1),
        );
    }
}

/// Forward substitution solves `L z = b`: row `i` of `L` times `z` is `b_i`.
pub proof fn law_forward_substitution_solves<F: Arithmetic>(
    r: Residues,
    l: Seq<Seq<Double>>,
    b: Seq<Double>,
    z: Seq<Double>,
    n: nat,
    i: int,
)
    requires
        r.exact::<F>(),
        forward_solution::<F>(l, b, z, n),
        0 <= i < n,
        !r.same(r.at(l[i][i]), 0),
    ensures
        r.same(sum(|k: int| r.at(l[i][k]) * r.at(z[k]), (i + 1) as nat), r.at(b[i])),
{
    let term = |k: int| times::<F>(l[i][k], z[k]);
    let f = |k: int| r.at(l[i][k]) * r.at(z[k]);
    assert forall|k: int| 0 <= k < i implies r.same(r.at(#[trigger] term(k)), f(k)) by {
        r.itself(r.at(l[i][k]));
        r.itself(r.at(z[k]));
        r.on_times::<F>(l[i][k], z[k], r.at(l[i][k]), r.at(z[k]));
    }
    lemma_less_terms::<F>(r, b[i], term, f, i as nat);
    let left = less_terms::<F>(b[i], term, i as nat);
    assert(z[i] == over::<F>(left, l[i][i]));
    let (zv, lv, s) = (r.at(z[i]), r.at(l[i][i]), sum(f, i as nat));
    r.itself(lv);
    r.on_over::<F>(left, l[i][i], r.at(b[i]) - s, lv);
    assert(zv * lv == lv * zv) by (nonlinear_arith);
    r.itself(s);
    r.summed(s, s, lv * zv, r.at(b[i]) - s);
    assert(sum(f, (i + 1) as nat) == s + lv * zv);
}

/// Back substitution solves `L'x = z`: column `i` of `L` from the diagonal on, times
/// `x`, is `z_i`.
pub proof fn law_back_substitution_solves<F: Arithmetic>(
    r: Residues,
    l: Seq<Seq<Double>>,
    z: Seq<Double>,
    x: Seq<Double>,
    i: int,
)
    requires
        r.exact::<F>(),
        back_solution::<F>(l, z, x, 0),
        0 <= i < z.len(),
        !r.same(r.at(l[i][i]), 0),
    ensures
        r.same(
            r.at(l[i][i]) * r.at(x[i]) + sum(
                |k: int| r.at(l[i + 1 + k][i]) * r.at(x[i + 1 + k]),
                (z.len() - i - 1) as nat,
            ),
            r.at(z[i]),
        ),
{
    let n = (z.len() - i - 1) as nat;
    let term = |k: int| times::<F>(l[i + 1 + k][i], x[i + 1 + k]);
    let f = |k: int| r.at(l[i + 1 + k][i]) * r.at(x[i + 1 + k]);
    assert forall|k: int| 0 <= k < n implies r.same(r.at(#[trigger] term(k)), f(k)) by {
        let (a, b) = (l[i + 1 + k][i], x[i + 1 + k]);
        r.itself(r.at(a));
        r.itself(r.at(b));
        r.on_times::<F>(a, b, r.at(a), r.at(b));
    }
    lemma_less_terms::<F>(r, z[i], term, f, n);
    let left = less_terms::<F>(z[i], term, n);
    assert(x[i] == over::<F>(left, l[i][i]));
    let (xv, lv, s) = (r.at(x[i]), r.at(l[i][i]), sum(f, n));
    r.itself(lv);
    r.on_over::<F>(left, l[i][i], r.at(z[i]) - s, lv);
    assert(xv * lv == lv * xv) by (nonlinear_arith);
    r.itself(s);
    r.summed(lv * xv, r.at(z[i]) - s, s, s);
}

/// A point half-way: twice it is the sum of the two.
pub proof fn law_half_way_is_the_mean<F: Arithmetic>(r: Residues, a: Seq<Double>, b: Seq<Double>, j: int)
    requires
        r.exact::<F>(),
        0 <= j < a.len(),
    ensures
        r.same(2 * r.at(half_way_of::<F>(a, b)[j]), r.at(a[j]) + r.at(b[j])),
{
    r.itself(r.at(a[j]));
    r.itself(r.at(b[j]));
    r.on_plus::<F>(a[j], b[j], r.at(a[j]), r.at(b[j]));
    r.on_half::<F>(plus::<F>(a[j], b[j]), r.at(a[j]) + r.at(b[j]));
}

/// `w (a - b)^2`.
proof fn lemma_square<F: Arithmetic>(r: Residues, w: Double, a: Double, b: Double)
    requires
        r.exact::<F>(),
    ensures
        ({
            let d = r.at(a) - r.at(b);
            let e = minus::<F>(a, b);
            &&& r.same(r.at(times::<F>(times::<F>(w, e), e)), r.at(w) * (d * d))
            &&& r.same(r.at(times::<F>(e, e)), 1 * (d * d))
        }),
{
    let d = r.at(a) - r.at(b);
    let e = minus::<F>(a, b);
    r.itself(r.at(w));
    r.itself(r.at(a));
    r.itself(r.at(b));
    r.on_minus::<F>(a, b, r.at(a), r.at(b));
    r.on_times::<F>(w, e, r.at(w), d);
    r.on_times::<F>(times::<F>(w, e), e, r.at(w) * d, d);
    r.on_times::<F>(e, e, d, d);
    let v = r.at(w);
    assert(v * d * d == v * (d * d)) by (nonlinear_arith);
}

/// The residual sum of squares weights every observation:
/// `sum_i w_i (y_i - mu_i)^2`.
pub proof fn law_weighted_sum_of_squares<F: Arithmetic>(
    r: Residues,
    y: Seq<Double>,
    mu: Seq<Double>,
    w: Option<Seq<Double>>,
)
    requires
        r.exact::<F>(),
    ensures
        r.same(
            r.at(rss_of::<F>(y, mu, w)),
            sum(
                |i: int|
                    weight_of(r, w, i) * ((r.at(y[i]) - r.at(mu[i])) * (r.at(y[i]) - r.at(mu[i]))),
                y.len(),
            ),
        ),
{
    let term = |i: int|
        {
            let e = minus::<F>(y[i], mu[i]);
            match w {
                Some(wv) => times::<F>(times::<F>(wv[i], e), e),
                None => times::<F>(e, e),
            }
        };
    let f = |i: int|
        weight_of(r, w, i) * ((r.at(y[i]) - r.at(mu[i])) * (r.at(y[i]) - r.at(mu[i])));
    assert forall|i: int| 0 <= i < y.len() implies r.same(r.at(#[trigger] term(i)), f(i)) by {
        match w {
            Some(wv) => {
                lemma_square::<F>(r, wv[i], y[i], mu[i]);
            },
            None => {
                lemma_square::<F>(r, zero(), y[i], mu[i]);
            },
        }
    }
    r.on_total::<F>(term, f, y.len());
}

/// The working sum of squares: `sum_i w_i (z_i - eta_i)^2`.
pub proof fn law_working_sum_of_squares<F: Arithmetic>(
    r: Residues,
    w: Seq<Double>,
    z: Seq<Double>,
    eta: Seq<Double>,
)
    requires
        r.exact::<F>(),
    ensures
        r.same(
            r.at(working_rss_of::<F>(w, z, eta)),
            sum(
                |i: int|
                    r.at(w[i]) * ((r.at(z[i]) - r.at(eta[i])) * (r.at(z[i]) - r.at(eta[i]))),
                w.len(),
            ),
        ),
{
    let term = |i: int|
        times::<F>(times::<F>(w[i], minus::<F>(z[i], eta[i])), minus::<F>(z[i], eta[i]));
    let f = |i: int| r.at(w[i]) * ((r.at(z[i]) - r.at(eta[i])) * (r.at(z[i]) - r.at(eta[i])));
    assert forall|i: int| 0 <= i < w.len() implies r.same(r.at(#[trigger] term(i)), f(i)) by {
        lemma_square::<F>(r, w[i], z[i], eta[i]);
    }
    r.on_total::<F>(term, f, w.len());
}

/// The weight of an observation under the smoothed quantile loss is
/// `s (1 - s) / (sigma lambda)`, and its working gradient `(s - (1 - tau)) / sigma`.
pub proof fn law_quantile_weight_and_slope<F: Arithmetic>(r: Residues, s: Double, p: ElfParams)
    requires
        r.exact::<F>(),
        !r.same(r.at(p.sigma), 0),
        !r.same(r.at(p.lambda), 0),
    ensures
        r.same(
            r.at(elf_weight_of::<F>(s, p)) * (r.at(p.sigma) * r.at(p.lambda)),
            r.at(s) * (1 - r.at(s)),
        ),
        r.same(
            r.at(elf_slope_of::<F>(s, p)) * r.at(p.sigma),
            r.at(s) - (1 - r.at(p.tau)),
        ),
{
    let (v, g, l, t) = (r.at(s), r.at(p.sigma), r.at(p.lambda), r.at(p.tau));
    r.constants::<F>();
    r.itself(v);
    r.itself(g);
    r.itself(l);
    r.itself(t);
    r.on_minus::<F>(one(), s, 1, v);
    r.on_times::<F>(s, minus::<F>(one(), s), v, 1 - v);
    r.on_times::<F>(p.sigma, p.lambda, g, l);
    let inv = r.inverse::<F>(p.sigma, g);
    r.product_not_zero(g, l, inv);
    r.on_over::<F>(
        times::<F>(s, minus::<F>(one(), s)),
        times::<F>(p.sigma, p.lambda),
        v * (1 - v),
        g * l,
    );
    r.on_minus::<F>(one(), p.tau, 1, t);
    r.on_minus::<F>(s, minus::<F>(one(), p.tau), v, 1 - t);
    r.on_over::<F>(minus::<F>(s, minus::<F>(one(), p.tau)), p.sigma, v - (1 - t), g);
}

/// The right-hand side of a quantile step is `X'(W eta + g)`.
pub proof fn law_quantile_right_hand_side<F: Arithmetic, E: ElfLoss>(
    r: Residues,
    x: Seq<Seq<Double>>,
    p: nat,
    y: Seq<Double>,
    eta: Seq<Double>,
    params: ElfParams,
    s_total: Seq<Seq<Double>>,
    sys: ElfSystem,
    c: int,
)
    requires
        r.exact::<F>(),
        elf_system_of::<F, E>(x, p, y, eta, params, s_total, sys),
        x.len() == y.len(),
        0 <= c < p,
    ensures
        exists|parts: Seq<ElfParts>| #[trigger]
            quantile_rows::<F, E>(r, x, y, eta, params, sys, parts, c),
{
    let parts = choose|parts: Seq<ElfParts>|
        #![trigger parts.len()]
        elf_read::<E>(y, eta, params, parts) && sys.w@ == Seq::new(
            y.len(),
            |i: int| elf_weight_of::<F>(parts[i].sigmoid, params),
        ) && sys.a@ == add_penalty_of::<F>(
            mat_mul_of::<F>(
                weighted_xt_of::<F>(x, p, sys.w@),
                x,
                p,
            ),
            s_total,
            one(),
        ) && sys.rhs@ == mat_t_vec_of::<F>(
            x,
            p,
            Seq::new(
                y.len(),
                |i: int|
                    plus::<F>(
                        times::<F>(sys.w@[i], eta[i]),
                        elf_slope_of::<F>(parts[i].sigmoid, params),
                    ),
            ),
        );
    let v = Seq::new(
        y.len(),
        |i: int|
            plus::<F>(
                times::<F>(sys.w@[i], eta[i]),
                elf_slope_of::<F>(parts[i].sigmoid, params),
            ),
    );
    let term = |i: int| times::<F>(x[i][c], v[i]);
    let f = |i: int|
        r.at(x[i][c]) * (r.at(sys.w@[i]) * r.at(eta[i]) + r.at(
            elf_slope_of::<F>(parts[i].sigmoid, params),
        ));
    assert forall|i: int| 0 <= i < x.len() implies r.same(r.at(#[trigger] term(i)), f(i)) by {
        let (w, e, g) = (sys.w@[i], eta[i], elf_slope_of::<F>(parts[i].sigmoid, params));
        r.itself(r.at(w));
        r.itself(r.at(e));
        r.itself(r.at(g));
        r.itself(r.at(x[i][c]));
        r.on_times::<F>(w, e, r.at(w), r.at(e));
        r.on_plus::<F>(times::<F>(w, e), g, r.at(w) * r.at(e), r.at(g));
        r.on_times::<F>(x[i][c], v[i], r.at(x[i][c]), r.at(w) * r.at(e) + r.at(g));
    }
    r.on_total::<F>(term, f, x.len());
    assert(sys.rhs@[c] == total::<F>(term, x.len()));
    assert(quantile_rows::<F, E>(r, x, y, eta, params, sys, parts, c));
}

/// The rows behind a quantile step, as the loss answers: the weights are those of
/// the answers, and entry `c` of the right-hand side is
/// `sum_i x_ic (w_i eta_i + g_i)`.
pub open spec fn quantile_rows<F: Arithmetic, E: ElfLoss>(
    r: Residues,
    x: Seq<Seq<Double>>,
    y: Seq<Double>,
    eta: Seq<Double>,
    params: ElfParams,
    sys: ElfSystem,
    parts: Seq<ElfParts>,
    c: int,
) -> bool {
    &&& elf_read::<E>(y, eta, params, parts)
    &&& forall|i: int|
        0 <= i < y.len() ==> #[trigger] sys.w@[i] == elf_weight_of::<F>(parts[i].sigmoid, params)
    &&& r.same(
        r.at(sys.rhs@[c]),
        sum(
            |i: int|
                r.at(x[i][c]) * (r.at(sys.w@[i]) * r.at(eta[i]) + r.at(
                    elf_slope_of::<F>(parts[i].sigmoid, params),
                )),
            x.len(),
        ),
    )
}

/// Entry `(b, c)` of `X' diag(w) X + S`.
pub open spec fn curvature_int(
    r: Residues,
    x: Seq<Seq<Double>>,
    w: Seq<Double>,
    s: Seq<Seq<Double>>,
    b: int,
    c: int,
) -> int {
    sum(|k: int| r.at(x[k][b]) * (r.at(x[k][c]) * r.at(w[k])), x.len()) + r.at(s[b][c])
}

/// The curvature in the score is `X' diag(w) X + S`, with mirrored entries replaced
/// by their mean.
pub proof fn law_score_curvature<F: Arithmetic>(
    r: Residues,
    x: Seq<Seq<Double>>,
    p: nat,
    w: Seq<Double>,
    s: Seq<Seq<Double>>,
    b: int,
    c: int,
)
    requires
        r.exact::<F>(),
        0 <= b < p,
        0 <= c < p,
    ensures
        r.same(
            2 * r.at(score_curvature_of::<F>(x, p, w, s)[b][c]),
            curvature_int(r, x, w, s, b, c) + curvature_int(r, x, w, s, c, b),
        ),
{
    let m = mat_plus_of::<F>(gram_of::<F>(x, p, scaled_rows_of::<F>(x, p, w), p), s);
    lemma_curvature_entry::<F>(r, x, p, w, s, b, c);
    lemma_curvature_entry::<F>(r, x, p, w, s, c, b);
    let (u, v) = (curvature_int(r, x, w, s, b, c), curvature_int(r, x, w, s, c, b));
    let e = score_curvature_of::<F>(x, p, w, s)[b][c];
    assert(e == symmetrised_of::<F>(m)[b][c]);
    if b < c {
        r.on_plus::<F>(m[b][c], m[c][b], u, v);
        r.on_half::<F>(plus::<F>(m[b][c], m[c][b]), u + v);
    } else if c < b {
        r.on_plus::<F>(m[c][b], m[b][c], v, u);
        r.on_half::<F>(plus::<F>(m[c][b], m[b][c]), v + u);
    } else {
        r.scaled(r.at(e), u, 2);
    }
}

proof fn lemma_curvature_entry<F: Arithmetic>(
    r: Residues,
    x: Seq<Seq<Double>>,
    p: nat,
    w: Seq<Double>,
    s: Seq<Seq<Double>>,
    b: int,
    c: int,
)
    requires
        r.exact::<F>(),
        0 <= b < p,
        0 <= c < p,
    ensures
        r.same(
            r.at(
                mat_plus_of::<F>(gram_of::<F>(x, p, scaled_rows_of::<F>(x, p, w), p), s)[b][c],
            ),
            curvature_int(r, x, w, s, b, c),
        ),
{
    let sr = scaled_rows_of::<F>(x, p, w);
    let term = |k: int| times::<F>(x[k][b], sr[k][c]);
    let f = |k: int| r.at(x[k][b]) * (r.at(x[k][c]) * r.at(w[k]));
    assert forall|k: int| 0 <= k < x.len() implies r.same(r.at(#[trigger] term(k)), f(k)) by {
        r.itself(r.at(x[k][b]));
        r.itself(r.at(x[k][c]));
        r.itself(r.at(w[k]));
        r.on_times::<F>(x[k][c], w[k], r.at(x[k][c]), r.at(w[k]));
        r.on_times::<F>(x[k][b], sr[k][c], r.at(x[k][b]), r.at(x[k][c]) * r.at(w[k]));
    }
    r.on_total::<F>(term, f, x.len());
    let g = gram_of::<F>(x, p, sr, p)[b][c];
    assert(g == total::<F>(term, x.len()));
    r.itself(r.at(s[b][c]));
    r.on_plus::<F>(g, s[b][c], sum(f, x.len()), r.at(s[b][c]));
}

/// The derivative of the linear predictor along a log smoothing parameter:
/// `-exp(rho) X A S b`.
pub proof fn law_predictor_slope<F: Arithmetic>(
    r: Residues,
    x: Seq<Seq<Double>>,
    a: Seq<Seq<Double>>,
    s: Seq<Seq<Double>>,
    beta: Seq<Double>,
    rho: Double,
    i: int,
)
    requires
        r.exact::<F>(),
        rows_of(x, beta.len()),
        rows_of(a, beta.len()),
        rows_of(s, beta.len()),
        a.len() == beta.len(),
        s.len() == beta.len(),
        0 <= i < x.len(),
    ensures
        ({
            let p = beta.len();
            let asb = apply(grid_ints(r, a), apply(grid_ints(r, s), ints(r, beta), p), p);
            r.same(
                r.at(eta1_of::<F>(x, a, s, beta, rho)[i]),
                sum(|k: int| r.at(x[i][k]) * (-r.at(exp::<F>(rho)) * asb(k)), p),
            )
        }),
{
    let p = beta.len();
    lemma_ints(r, beta, s, p);
    lemma_ints(r, beta, a, p);
    lemma_ints(r, beta, x, p);
    let sb = mat_vec_of::<F>(s, beta);
    lemma_mat_vec_at::<F>(r, s, beta, grid_ints(r, s), ints(r, beta));
    let sbi = apply(grid_ints(r, s), ints(r, beta), p);
    let asb = mat_vec_of::<F>(a, sb);
    lemma_mat_vec_at::<F>(r, a, sb, grid_ints(r, a), sbi);
    let asbi = apply(grid_ints(r, a), sbi, p);
    let e = exp::<F>(rho);
    r.itself(r.at(e));
    r.on_neg::<F>(e, r.at(e));
    let b1 = Seq::new(asb.len(), |i: int| times::<F>(exp::<F>(rho).neg_spec(), asb[i]));
    let b1i = |k: int| -r.at(e) * asbi(k);
    assert forall|k: int| 0 <= k < b1.len() implies r.same(r.at(#[trigger] b1[k]), b1i(k)) by {
        assert(r.same(r.at(asb[k]), asbi(k)));
        r.on_times::<F>(e.neg_spec(), asb[k], -r.at(e), asbi(k));
    }
    assert(vec_at(r, b1, b1i));
    lemma_mat_vec_at::<F>(r, x, b1, grid_ints(r, x), b1i);
    assert(r.same(r.at(mat_vec_of::<F>(x, b1)[i]), apply(grid_ints(r, x), b1i, p)(i)));
    lemma_sum_congruent(
        |k: int| grid_ints(r, x)(i, k) * b1i(k),
        |k: int| r.at(x[i][k]) * (-r.at(e) * asbi(k)),
        p,
    );
    assert(eta1_of::<F>(x, a, s, beta, rho)[i] == mat_vec_of::<F>(x, b1)[i]);
}

/// The leverage of a row, with the matrix applied to it first: `x_i' A x_i`.
pub proof fn law_newton_leverage<F: Arithmetic>(
    r: Residues,
    x: Seq<Seq<Double>>,
    p: nat,
    a: Seq<Seq<Double>>,
    i: int,
)
    requires
        r.exact::<F>(),
        rows_of(x, p),
        a.len() == p,
        0 <= i < x.len(),
    ensures
        r.same(
            r.at(leverage_of::<F>(x, p, a)[i]),
            sum(
                |j: int| product(grid_ints(r, x), grid_ints(r, a), p)(i, j) * r.at(x[i][j]),
                p,
            ),
        ),
{
    lemma_ints(r, x[i], x, p);
    lemma_ints(r, x[i], a, p);
    let xa = mat_mul_of::<F>(x, a, p);
    lemma_mat_mul_at::<F>(r, x, a, p, grid_ints(r, x), grid_ints(r, a));
    let g = product(grid_ints(r, x), grid_ints(r, a), p);
    let row = |j: int| g(i, j);
    assert forall|j: int| 0 <= j < xa[i].len() implies r.same(r.at(#[trigger] xa[i][j]), row(j)) by {}
    lemma_dot_at::<F>(r, xa[i], x[i], row, ints(r, x[i]));
    lemma_sum_congruent(
        |j: int| row(j) * ints(r, x[i])(j),
        |j: int| g(i, j) * r.at(x[i][j]),
        p,
    );
}

/// The numbers of the change of a Newton weight: `V'/V`, `V''/V`, `g''/g'` and
/// `g'''/g'`, and the derivative `a1` of the curvature ratio over the ratio `a` in
/// use, `a a1 = -(V'/V + g''/g') + (y - mu) (V''/V - (V'/V)^2 + g'''/g' - (g''/g')^2)`.
pub open spec fn weight_slope_numbers(
    r: Residues,
    j: RowJet,
    y: Double,
    mu: Double,
    ratio: Double,
    v1: int,
    v2: int,
    g2: int,
    g3: int,
    a1: int,
) -> bool {
    let v = r.at(floored_variance(j.shape));
    let g1 = r.at(j.shape.g1);
    let (e, a) = (r.at(y) - r.at(mu), r.at(ratio));
    &&& r.same(v1 * v, r.at(j.shape.v1))
    &&& r.same(v2 * v, r.at(j.v2))
    &&& r.same(g2 * g1, r.at(j.shape.g2))
    &&& r.same(g3 * g1, r.at(j.g3))
    &&& !r.same(a, 0) ==> r.same(a1 * a, -(v1 + g2) + e * (v2 - v1 * v1 + g3 - g2 * g2))
}

/// The ratio of observed to expected curvature, 1 where it is not above zero.
pub open spec fn ratio_in_use<F: Arithmetic>(y: Double, mu: Double, s: RowShape) -> Double {
    let raw = alpha_of::<F>(y, mu, s);
    if raw.at_most(zero()) {
        one()
    } else {
        raw
    }
}

/// The change of a Newton weight with the mean is
/// `w (a1 / a - V'/V - 2 g''/g') / g'`.
pub proof fn law_newton_weight_slope<F: Arithmetic>(
    r: Residues,
    y: Double,
    mu: Double,
    w: Double,
    j: RowJet,
)
    requires
        r.exact::<F>(),
        !j.shape.g1.abs_spec().below(lit(E_M12)),
        !r.same(r.at(j.shape.g1), 0),
        !r.same(r.at(floored_variance(j.shape)), 0),
    ensures
        ({
            let ratio = ratio_in_use::<F>(y, mu, j.shape);
            exists|v1: int, v2: int, g2: int, g3: int, a1: int| #[trigger]
                weight_slope_numbers(r, j, y, mu, ratio, v1, v2, g2, g3, a1) && r.same(
                    r.at(a1_row_of::<F>(y, mu, w, j)) * r.at(j.shape.g1),
                    r.at(w) * (a1 - v1 - 2 * g2),
                )
        }),
{
    let s = j.shape;
    let fv = floored_variance(s);
    let (v, g1) = (r.at(fv), r.at(s.g1));
    r.constants::<F>();
    r.itself(v);
    r.itself(g1);
    r.itself(r.at(s.v1));
    r.itself(r.at(j.v2));
    r.itself(r.at(s.g2));
    r.itself(r.at(j.g3));
    r.itself(r.at(y));
    r.itself(r.at(mu));
    r.itself(r.at(w));
    let (v1d, v2d, g2d, g3d) = (
        over::<F>(s.v1, fv),
        over::<F>(j.v2, fv),
        over::<F>(s.g2, s.g1),
        over::<F>(j.g3, s.g1),
    );
    r.on_over::<F>(s.v1, fv, r.at(s.v1), v);
    r.on_over::<F>(j.v2, fv, r.at(j.v2), v);
    r.on_over::<F>(s.g2, s.g1, r.at(s.g2), g1);
    r.on_over::<F>(j.g3, s.g1, r.at(j.g3), g1);
    let (v1, v2, g2, g3) = (r.at(v1d), r.at(v2d), r.at(g2d), r.at(g3d));
    r.itself(v1);
    r.itself(v2);
    r.itself(g2);
    r.itself(g3);
    let e = r.at(y) - r.at(mu);
    let cd = minus::<F>(y, mu);
    r.on_minus::<F>(y, mu, r.at(y), r.at(mu));
    let ad = ratio_in_use::<F>(y, mu, s);
    r.itself(r.at(ad));
    r.on_times::<F>(v1d, v1d, v1, v1);
    r.on_times::<F>(g2d, g2d, g2, g2);
    let x1 = minus::<F>(v2d, times::<F>(v1d, v1d));
    r.on_minus::<F>(v2d, times::<F>(v1d, v1d), v2, v1 * v1);
    let x2 = plus::<F>(x1, g3d);
    r.on_plus::<F>(x1, g3d, v2 - v1 * v1, g3);
    let xx = minus::<F>(x2, times::<F>(g2d, g2d));
    r.on_minus::<F>(x2, times::<F>(g2d, g2d), v2 - v1 * v1 + g3, g2 * g2);
    let q = v2 - v1 * v1 + g3 - g2 * g2;
    r.on_times::<F>(cd, xx, e, q);
    let sum1 = plus::<F>(v1d, g2d);
    r.on_plus::<F>(v1d, g2d, v1, g2);
    r.on_neg::<F>(sum1, v1 + g2);
    let top = plus::<F>(sum1.neg_spec(), times::<F>(cd, xx));
    r.on_plus::<F>(sum1.neg_spec(), times::<F>(cd, xx), -(v1 + g2), e * q);
    let a1d = over::<F>(top, ad);
    if !r.same(r.at(ad), 0) {
        r.on_over::<F>(top, ad, -(v1 + g2) + e * q, r.at(ad));
    }
    let a1 = r.at(a1d);
    r.itself(a1);
    let t1 = minus::<F>(a1d, v1d);
    r.on_minus::<F>(a1d, v1d, a1, v1);
    r.on_times::<F>(two(), g2d, 2, g2);
    let t2 = minus::<F>(t1, times::<F>(two(), g2d));
    r.on_minus::<F>(t1, times::<F>(two(), g2d), a1 - v1, 2 * g2);
    let d = a1 - v1 - 2 * g2;
    let wt = times::<F>(w, t2);
    r.on_times::<F>(w, t2, r.at(w), d);
    let id = over::<F>(one(), s.g1);
    r.on_over::<F>(one(), s.g1, 1, g1);
    let (i, wv) = (r.at(id), r.at(w));
    r.itself(i);
    r.on_times::<F>(wt, id, wv * d, i);
    let out = r.at(times::<F>(wt, id));
    r.scaled(out, wv * d * i, g1);
    let wd = wv * d;
    assert(wd * i * g1 == wd * (i * g1)) by (nonlinear_arith);
    r.scaled(i * g1, 1, wd);
    r.chained(out * g1, wd * (i * g1), wd * 1);
    assert(times::<F>(wt, id) == a1_row_of::<F>(y, mu, w, j));
    assert(wd * 1 == wv * (a1 - v1 - 2 * g2));
    assert(weight_slope_numbers(r, j, y, mu, ad, v1, v2, g2, g3, a1));
    assert(r.same(
        r.at(a1_row_of::<F>(y, mu, w, j)) * r.at(j.shape.g1),
        r.at(w) * (a1 - v1 - 2 * g2),
    ));
}

/// The slope of a Fisher weight along the linear predictor is a central difference
/// in the mean over `g'`: with the weights `prior / (V g'^2)` at the two displaced
/// means, `2 h g' dw` is their difference.
pub proof fn law_fisher_weight_slope<F: Arithmetic>(
    r: Residues,
    mu: Double,
    prior: Double,
    g1: Double,
    up: (Double, Double),
    down: (Double, Double),
    wu: int,
    wd: int,
)
    requires
        r.exact::<F>(),
        !r.same(r.at(g1), 0),
        !r.same(r.at(mean_step::<F>(mu)), 0),
        fisher_weight_at(r, prior, up, wu),
        fisher_weight_at(r, prior, down, wd),
    ensures
        r.same(
            r.at(dw_deta_of::<F>(mu, prior, g1, up, down)) * (r.at(g1) * (2 * r.at(
                mean_step::<F>(mu),
            ))),
            wu - wd,
        ),
{
    lemma_fisher_weight::<F>(r, prior, up, wu);
    lemma_fisher_weight::<F>(r, prior, down, wd);
    let (a, b) = (weight_at::<F>(prior, up.0, up.1), weight_at::<F>(prior, down.0, down.1));
    r.on_minus::<F>(a, b, wu, wd);
    let h = mean_step::<F>(mu);
    r.itself(r.at(h));
    r.itself(r.at(g1));
    r.on_over_double::<F>(minus::<F>(a, b), h, wu - wd, r.at(h));
    let q = over::<F>(minus::<F>(a, b), times::<F>(two(), h));
    r.itself(r.at(q));
    r.on_over::<F>(q, g1, r.at(q), r.at(g1));
    let (d, g, hv) = (r.at(over::<F>(q, g1)), r.at(g1), 2 * r.at(h));
    r.scaled(d * g, r.at(q), hv);
    assert(d * (g * hv) == d * g * hv) by (nonlinear_arith);
    r.chained(d * (g * hv), r.at(q) * hv, wu - wd);
}

/// `w` is the Fisher weight at a mean: `w V g'^2 = prior`, with the variance at
/// least 1e-300.
pub open spec fn fisher_weight_at(r: Residues, prior: Double, at: (Double, Double), w: int) -> bool {
    let v = r.at(at.0.max_spec(lit(E_M300)));
    let g = r.at(at.1);
    &&& !r.same(v, 0)
    &&& !r.same(g, 0)
    &&& r.same(w * (v * g * g), r.at(prior))
}

proof fn lemma_fisher_weight<F: Arithmetic>(r: Residues, prior: Double, at: (Double, Double), w: int)
    requires
        r.exact::<F>(),
        fisher_weight_at(r, prior, at, w),
    ensures
        r.same(r.at(weight_at::<F>(prior, at.0, at.1)), w),
{
    let vd = at.0.max_spec(lit(E_M300));
    let (v, g) = (r.at(vd), r.at(at.1));
    r.itself(v);
    r.itself(g);
    r.itself(r.at(prior));
    let vg = times::<F>(vd, at.1);
    r.on_times::<F>(vd, at.1, v, g);
    let vgg = times::<F>(vg, at.1);
    r.on_times::<F>(vg, at.1, v * g, g);
    let iv = r.inverse::<F>(vd, v);
    let ig = r.inverse::<F>(at.1, g);
    r.product_not_zero(v, g, iv);
    r.product_not_zero(g, v * g, ig);
    let m = v * g * g;
    r.on_over::<F>(prior, vgg, r.at(prior), m);
    let x = r.at(over::<F>(prior, vgg));
    r.turned(w * m, r.at(prior));
    r.chained(x * m, r.at(prior), w * m);
    let inv = r.inverse::<F>(vgg, m);
    r.cancelled(x, w, m, inv);
}

/// The final weight of a quantile fit is half the second derivative of the loss,
/// and its working response one Newton step away where the weight is above 1e-12.
pub proof fn law_quantile_final_row<F: Arithmetic>(r: Residues, eta: Double, part: ElfParts, p: ElfParams)
    requires
        r.exact::<F>(),
    ensures
        ({
            let (w, z) = elf_final_row::<F>(eta, part, p);
            &&& r.same(2 * r.at(w), r.at(part.d2l_dmu))
            &&& lit(E_M12).below(w) && !r.same(r.at(w), 0) ==> r.same(
                (r.at(z) - r.at(eta)) * r.at(w),
                r.at(elf_slope_of::<F>(part.sigmoid, p)),
            )
            &&& !lit(E_M12).below(w) ==> z == eta
        }),
{
    let (w, z) = elf_final_row::<F>(eta, part, p);
    r.itself(r.at(part.d2l_dmu));
    r.on_half::<F>(part.d2l_dmu, r.at(part.d2l_dmu));
    if lit(E_M12).below(w) && !r.same(r.at(w), 0) {
        let g = elf_slope_of::<F>(part.sigmoid, p);
        r.itself(r.at(g));
        r.itself(r.at(w));
        r.itself(r.at(eta));
        r.on_over::<F>(g, w, r.at(g), r.at(w));
        let q = over::<F>(g, w);
        r.itself(r.at(q));
        r.on_plus::<F>(eta, q, r.at(eta), r.at(q));
        r.itself(-r.at(eta));
        r.summed(r.at(z), r.at(eta) + r.at(q), -r.at(eta), -r.at(eta));
        r.scaled(r.at(z) - r.at(eta), r.at(q), r.at(w));
        r.chained((r.at(z) - r.at(eta)) * r.at(w), r.at(q) * r.at(w), r.at(g));
    }
}

/// A category's linear predictor starts in the middle between its cut points; the
/// outer ones are -2 and one above the last inner cut point. Stated times 2.
pub proof fn law_category_start<F: Arithmetic>(r: Residues, alpha: Seq<Double>, k: int, cats: int)
    requires
        r.exact::<F>(),
    ensures
        r.same(
            2 * r.at(eta_start_of::<F>(alpha, k, cats)),
            (if k == 1 {
                -2
            } else {
                r.at(alpha[k - 1])
            }) + (if k == cats {
                r.at(alpha[cats - 1]) + 1
            } else {
                r.at(alpha[k])
            }),
        ),
{
    r.constants::<F>();
    assert(lit(MINUS_TWO) == two().neg_spec());
    r.on_neg::<F>(two(), 2);
    r.itself(r.at(alpha[k - 1]));
    r.itself(r.at(alpha[k]));
    r.itself(r.at(alpha[cats - 1]));
    r.on_plus::<F>(alpha[cats - 1], one(), r.at(alpha[cats - 1]), 1);
    let lo = if k == 1 {
        lit(MINUS_TWO)
    } else {
        alpha[k - 1]
    };
    let hi = if k == cats {
        plus::<F>(alpha[cats - 1], one())
    } else {
        alpha[k]
    };
    let (x, y) = (
        if k == 1 {
            -2
        } else {
            r.at(alpha[k - 1])
        },
        if k == cats {
            r.at(alpha[cats - 1]) + 1
        } else {
            r.at(alpha[k])
        },
    );
    r.on_plus::<F>(lo, hi, x, y);
    r.on_half::<F>(plus::<F>(lo, hi), x + y);
}

/// A ridge lifts the diagonal by `scale` times the diagonal maximum, and leaves
/// every other entry.
pub proof fn law_relative_ridge<F: Arithmetic>(
    r: Residues,
    a: Seq<Seq<Double>>,
    scale: Double,
    i: int,
    j: int,
)
    requires
        r.exact::<F>(),
        0 <= i < a.len(),
        0 <= j < a.len(),
    ensures
        i != j ==> relative_ridge_of::<F>(a, scale)[i][j] == a[i][j],
        i == j ==> r.same(
            r.at(relative_ridge_of::<F>(a, scale)[i][j]),
            r.at(a[i][j]) + r.at(scale) * r.at(max_diag_upto(a, a.len())),
        ),
{
    let m = max_diag_upto(a, a.len());
    r.itself(r.at(scale));
    r.itself(r.at(m));
    r.itself(r.at(a[i][j]));
    r.on_times::<F>(scale, m, r.at(scale), r.at(m));
    r.on_plus::<F>(a[i][j], times::<F>(scale, m), r.at(a[i][j]), r.at(scale) * r.at(m));
}

/// The log determinant from a lower factor is twice the sum of the logs of its
/// diagonal; from eigenvalues it is the sum of the logs of their sizes.
pub proof fn law_log_determinants<F: Arithmetic>(r: Residues, l: Seq<Seq<Double>>, eigs: Seq<Double>)
    requires
        r.exact::<F>(),
    ensures
        r.same(
            r.at(chol_logdet_of::<F>(l)),
            2 * sum(|i: int| r.at(ln::<F>(l[i][i])), l.len()),
        ),
        chol_log_det_spec::<F>(l) matches Some(v) ==> r.same(
            r.at(v),
            2 * sum(|i: int| r.at(ln::<F>(l[i][i])), l.len()),
        ),
        eig_log_det_spec::<F>(eigs) matches Some(v) ==> r.same(
            r.at(v),
            sum(|i: int| r.at(ln::<F>(eigs[i].abs_spec())), eigs.len()),
        ),
{
    r.constants::<F>();
    let t = |i: int| ln::<F>(l[i][i]);
    let f = |i: int| r.at(ln::<F>(l[i][i]));
    assert forall|i: int| 0 <= i < l.len() implies r.same(r.at(#[trigger] t(i)), f(i)) by {
        r.itself(r.at(t(i)));
    }
    r.on_total::<F>(t, f, l.len());
    r.on_times::<F>(two(), total::<F>(t, l.len()), 2, sum(f, l.len()));
    let u = |i: int| ln::<F>(eigs[i].abs_spec());
    let g = |i: int| r.at(ln::<F>(eigs[i].abs_spec()));
    assert forall|i: int| 0 <= i < eigs.len() implies r.same(r.at(#[trigger] u(i)), g(i)) by {
        r.itself(r.at(u(i)));
    }
    r.on_total::<F>(u, g, eigs.len());
}

/// A point along a quantile step lies `alpha` of the way to what was proposed.
pub proof fn law_point_along_a_step<F: Arithmetic>(
    r: Residues,
    beta: Seq<Double>,
    proposed: Seq<Double>,
    alpha: Double,
    j: int,
)
    requires
        r.exact::<F>(),
        0 <= j < beta.len(),
        proposed.len() == beta.len(),
    ensures
        r.same(
            r.at(along_of::<F>(beta, alpha, difference_of::<F>(proposed, beta))[j]),
            r.at(beta[j]) + r.at(alpha) * (r.at(proposed[j]) - r.at(beta[j])),
        ),
{
    let d = minus::<F>(proposed[j], beta[j]);
    r.itself(r.at(beta[j]));
    r.itself(r.at(proposed[j]));
    r.itself(r.at(alpha));
    r.on_minus::<F>(proposed[j], beta[j], r.at(proposed[j]), r.at(beta[j]));
    let v = r.at(proposed[j]) - r.at(beta[j]);
    r.on_times::<F>(alpha, d, r.at(alpha), v);
    r.on_plus::<F>(beta[j], times::<F>(alpha, d), r.at(beta[j]), r.at(alpha) * v);
}

/// The objective of a quantile fit is the sum of the deviances at `X b` and
/// `b'S b`, for some answers of the loss that are all finite; else it is infinite.
pub proof fn law_quantile_objective<F: Arithmetic, E: ElfLoss>(
    r: Residues,
    x: Seq<Seq<Double>>,
    y: Seq<Double>,
    params: ElfParams,
    s_total: Seq<Seq<Double>>,
    b: Seq<Double>,
    d: Double,
)
    requires
        r.exact::<F>(),
        elf_objective::<F, E>(x, y, params, s_total, b, d),
        s_total.len() == b.len(),
        rows_of(s_total, b.len()),
    ensures
        exists|parts: Seq<ElfParts>| #[trigger]
            elf_read::<E>(y, mat_vec_of::<F>(x, b), params, parts) && if forall|i: int|
                0 <= i < parts.len() ==> (#[trigger] parts[i]).deviance.finite() {
                r.same(
                    r.at(d),
                    sum(|i: int| r.at(parts[i].deviance), y.len()) + sum(
                        |i: int| r.at(b[i]) * dot_int(r, s_total[i], b),
                        b.len(),
                    ),
                )
            } else {
                d == lit(INF_BITS)
            },
{
    let parts = choose|parts: Seq<ElfParts>|
        #![trigger parts.len()]
        elf_read::<E>(y, mat_vec_of::<F>(x, b), params, parts) && d == (if forall|i: int|
            0 <= i < parts.len() ==> (#[trigger] parts[i]).deviance.finite() {
            plus::<F>(
                total::<F>(|i: int| parts[i].deviance, y.len()),
                times::<F>(one(), dot_of::<F>(b, mat_vec_of::<F>(s_total, b))),
            )
        } else {
            lit(INF_BITS)
        });
    let t = |i: int| parts[i].deviance;
    let f = |i: int| r.at(parts[i].deviance);
    assert forall|i: int| 0 <= i < y.len() implies r.same(r.at(#[trigger] t(i)), f(i)) by {
        r.itself(r.at(t(i)));
    }
    r.on_total::<F>(t, f, y.len());
    let sb = mat_vec_of::<F>(s_total, b);
    let u = |i: int| times::<F>(b[i], sb[i]);
    let g = |i: int| r.at(b[i]) * dot_int(r, s_total[i], b);
    assert forall|i: int| 0 <= i < b.len() implies r.same(r.at(#[trigger] u(i)), g(i)) by {
        law_dot_product::<F>(r, s_total[i], b);
        r.itself(r.at(b[i]));
        r.on_times::<F>(b[i], sb[i], r.at(b[i]), dot_int(r, s_total[i], b));
    }
    r.on_total::<F>(u, g, b.len());
    r.constants::<F>();
    let q = dot_of::<F>(b, sb);
    r.on_times::<F>(one(), q, 1, sum(g, b.len()));
    r.on_plus::<F>(
        total::<F>(t, y.len()),
        times::<F>(one(), q),
        sum(f, y.len()),
        1 * sum(g, b.len()),
    );
    assert(elf_read::<E>(y, mat_vec_of::<F>(x, b), params, parts));
}

/// A Newton weight is the prior weight times `1 / (V g'^2)` times the ratio of
/// observed to expected curvature, whatever its sign.
pub proof fn law_newton_weight<F: Arithmetic>(r: Residues, y: Double, mu: Double, prior: Double, s: RowShape)
    requires
        r.exact::<F>(),
        !r.same(r.at(floored_variance(s)), 0),
        !r.same(r.at(s.g1), 0),
    ensures
        ({
            let (v, g) = (r.at(floored_variance(s)), r.at(s.g1));
            let f = fisher_weight_of::<F>(s);
            let a = alpha_of::<F>(y, mu, s);
            &&& r.same(r.at(f) * (v * g * g), 1)
            &&& r.same(
                r.at(times::<F>(times::<F>(prior, f), a)) * (v * g * g),
                r.at(prior) * r.at(a),
            )
        }),
{
    let fv = floored_variance(s);
    let (v, g) = (r.at(fv), r.at(s.g1));
    r.constants::<F>();
    r.itself(v);
    r.itself(g);
    r.itself(r.at(prior));
    let vg = times::<F>(fv, s.g1);
    r.on_times::<F>(fv, s.g1, v, g);
    let vgg = times::<F>(vg, s.g1);
    r.on_times::<F>(vg, s.g1, v * g, g);
    let iv = r.inverse::<F>(fv, v);
    let ig = r.inverse::<F>(s.g1, g);
    r.product_not_zero(v, g, iv);
    r.product_not_zero(g, v * g, ig);
    let m = v * g * g;
    r.on_over::<F>(one(), vgg, 1, m);
    let f = fisher_weight_of::<F>(s);
    let a = alpha_of::<F>(y, mu, s);
    let (x, p, q) = (r.at(f), r.at(prior), r.at(a));
    r.itself(x);
    r.itself(q);
    r.on_times::<F>(prior, f, p, x);
    r.on_times::<F>(times::<F>(prior, f), a, p * x, q);
    let w = r.at(times::<F>(times::<F>(prior, f), a));
    r.scaled(w, p * x * q, m);
    assert(p * x * q * m == (p * q) * (x * m)) by (nonlinear_arith);
    r.scaled(x * m, 1, p * q);
    r.chained(w * m, (p * q) * (x * m), (p * q) * 1);
}

/// The derivative of the working deviance along coefficient `c` is
/// `-2 sum_i x_ic w_i (z_i - x_i b)`.
pub proof fn law_working_deviance_slope<F: Arithmetic>(
    r: Residues,
    x: Seq<Seq<Double>>,
    p: nat,
    w: Seq<Double>,
    z: Seq<Double>,
    beta: Seq<Double>,
    c: int,
)
    requires
        r.exact::<F>(),
        0 <= c < p,
    ensures
        r.same(
            r.at(dev_grad_of::<F>(x, p, w, z, beta)[c]),
            sum(
                |i: int| r.at(x[i][c]) * (-2 * r.at(w[i]) * (r.at(z[i]) - dot_int(r, x[i], beta))),
                x.len(),
            ),
        ),
{
    r.constants::<F>();
    assert(lit(MINUS_TWO) == two().neg_spec());
    r.on_neg::<F>(two(), 2);
    let eta = mat_vec_of::<F>(x, beta);
    let v = Seq::new(
        x.len(),
        |i: int|
            times::<F>(times::<F>(lit(MINUS_TWO), w[i]), minus::<F>(z[i], mat_vec_of::<F>(x, beta)[i])),
    );
    let term = |i: int| times::<F>(x[i][c], v[i]);
    let f = |i: int| r.at(x[i][c]) * (-2 * r.at(w[i]) * (r.at(z[i]) - dot_int(r, x[i], beta)));
    assert forall|i: int| 0 <= i < x.len() implies r.same(r.at(#[trigger] term(i)), f(i)) by {
        law_dot_product::<F>(r, x[i], beta);
        let e = dot_int(r, x[i], beta);
        r.itself(r.at(w[i]));
        r.itself(r.at(z[i]));
        r.itself(r.at(x[i][c]));
        r.on_times::<F>(lit(MINUS_TWO), w[i], -2, r.at(w[i]));
        r.on_minus::<F>(z[i], eta[i], r.at(z[i]), e);
        r.on_times::<F>(
            times::<F>(lit(MINUS_TWO), w[i]),
            minus::<F>(z[i], eta[i]),
            -2 * r.at(w[i]),
            r.at(z[i]) - e,
        );
        r.on_times::<F>(x[i][c], v[i], r.at(x[i][c]), -2 * r.at(w[i]) * (r.at(z[i]) - e));
    }
    r.on_total::<F>(term, f, x.len());
    assert(dev_grad_of::<F>(x, p, w, z, beta)[c] == total::<F>(term, x.len()));
}

/// The system with observed curvature is `X' diag(w) X + sum_j l_j S_j`.
pub proof fn law_observed_system<F: Arithmetic>(
    r: Residues,
    x: Seq<Seq<Double>>,
    p: nat,
    w: Seq<Double>,
    s_list: Seq<Matrix>,
    lambda: Seq<Double>,
    b: int,
    c: int,
)
    requires
        r.exact::<F>(),
        0 <= b < p,
        0 <= c < p,
    ensures
        ({
            let (lo, hi) = if b <= c {
                (b, c)
            } else {
                (c, b)
            };
            r.same(
                r.at(observed_system_of::<F>(x, p, w, s_list, lambda)[b][c]),
                sum(|i: int| r.at(x[i][lo]) * r.at(x[i][hi]) * r.at(w[i]), x.len()) + sum(
                    |j: int| r.at(lambda[j]) * r.at(s_list[j]@[b][c]),
                    lambda.len(),
                ),
            )
        }),
{
    let (lo, hi) = if b <= c {
        (b, c)
    } else {
        (c, b)
    };
    let t = |i: int| times::<F>(times::<F>(x[i][lo], x[i][hi]), w[i]);
    let f = |i: int| r.at(x[i][lo]) * r.at(x[i][hi]) * r.at(w[i]);
    assert forall|i: int| 0 <= i < x.len() implies r.same(r.at(#[trigger] t(i)), f(i)) by {
        let (u, v) = (x[i][lo], x[i][hi]);
        r.itself(r.at(u));
        r.itself(r.at(v));
        r.itself(r.at(w[i]));
        r.on_times::<F>(u, v, r.at(u), r.at(v));
        r.on_times::<F>(times::<F>(u, v), w[i], r.at(u) * r.at(v), r.at(w[i]));
    }
    r.on_total::<F>(t, f, x.len());
    let q = |j: int| times::<F>(lambda[j], s_list[j]@[b][c]);
    let g = |j: int| r.at(lambda[j]) * r.at(s_list[j]@[b][c]);
    assert forall|j: int| 0 <= j < lambda.len() implies r.same(r.at(#[trigger] q(j)), g(j)) by {
        r.itself(r.at(lambda[j]));
        r.itself(r.at(s_list[j]@[b][c]));
        r.on_times::<F>(lambda[j], s_list[j]@[b][c], r.at(lambda[j]), r.at(s_list[j]@[b][c]));
    }
    let d = total::<F>(t, x.len());
    r.on_total_from::<F>(d, q, sum(f, x.len()), g, lambda.len());
    assert(observed_system_of::<F>(x, p, w, s_list, lambda)[b][c] == total_from::<F>(
        d,
        q,
        lambda.len(),
    ));
}

} // verus!
