//! Laws of the steps of the outer search, in exact arithmetic.

use vstd::prelude::*;

use crate::arith::{count, exp, ln, minus, over, plus, root, times, total, Arithmetic};
use crate::dense::{beta_sbeta_of, dot_of, mat_vec_of, trace_product_of};
use crate::double::{half, inf_norm_spec, lit, zero, Double, E_M10, E_M20};
use crate::exact::{
    lemma_sum_changed, lemma_sum_congruent, lemma_sum_scaled, lemma_sum_zero, lemma_sums_swapped,
    sum, Residues,
};
use crate::inner::laws::{
    dot_int, law_dot_product, law_quadratic_penalty, law_trace_of_product, quadratic_int, trace_int,
};
use crate::outer::fellner_schall::{change_upto, updated_of, FellnerSchallOpts};
use crate::outer::newton::descent_step_of;
use crate::outer::step::{
    descent_spec, l2_norm_of, predicted_change, recomposed_of, scaled_curvature, scaled_slope,
    spread_of, MAX_S_STEP,
};
use crate::score::hessian_laws::{
    apply, grid_ints, inner_product, ints, lemma_dot_at, lemma_ints, lemma_mat_vec_at,
};

verus! {

/// The quadratic model predicts `g's + s'Hs / 2`. Stated times 2.
pub proof fn law_predicted_change<F: Arithmetic>(r: Residues, g: Seq<Double>, h: Seq<Seq<Double>>, s: Seq<Double>)
    requires
        r.exact::<F>(),
        g.len() == s.len(),
        h.len() == s.len(),
        forall|i: int| 0 <= i < h.len() ==> (#[trigger] h[i]).len() == s.len(),
    ensures
        r.same(
            2 * r.at(predicted_change::<F>(g, h, s)),
            2 * dot_int(r, g, s) + sum(
                |i: int| r.at(s[i]) * sum(|k: int| r.at(h[i][k]) * r.at(s[k]), s.len()),
                s.len(),
            ),
        ),
{
    let n = s.len();
    law_dot_product::<F>(r, g, s);
    lemma_ints(r, s, h, n);
    lemma_mat_vec_at::<F>(r, h, s, grid_ints(r, h), ints(r, s));
    let hs = apply(grid_ints(r, h), ints(r, s), n);
    let hd = mat_vec_of::<F>(h, s);
    lemma_dot_at::<F>(r, s, hd, ints(r, s), hs);
    let q = inner_product(ints(r, s), hs, n);
    let u = |i: int| ints(r, s)(i) * hs(i);
    let v = |i: int| r.at(s[i]) * sum(|k: int| r.at(h[i][k]) * r.at(s[k]), n);
    assert forall|i: int| 0 <= i < n implies #[trigger] u(i) == v(i) by {
        lemma_sum_congruent(
            |k: int| grid_ints(r, h)(i, k) * ints(r, s)(k),
            |k: int| r.at(h[i][k]) * r.at(s[k]),
            n,
        );
    }
    lemma_sum_congruent(u, v, n);
    let (gd, qd) = (dot_of::<F>(g, s), dot_of::<F>(s, hd));
    r.on_half::<F>(qd, q);
    let hq = times::<F>(half(), qd);
    r.itself(r.at(hq));
    let d = dot_int(r, g, s);
    r.on_plus::<F>(gd, hq, d, r.at(hq));
    r.scaled(r.at(plus::<F>(gd, hq)), d + r.at(hq), 2);
    r.itself(2 * d);
    r.summed(2 * d, 2 * d, 2 * r.at(hq), q);
    r.chained(2 * r.at(plus::<F>(gd, hq)), 2 * (d + r.at(hq)), 2 * d + q);
}

/// The direction is the Newton direction: where the scaled system is solved exactly,
/// the step that is spread over the active axes satisfies `H r = -g` on them,
/// whatever the scales.
pub proof fn law_newton_direction_solves<F: Arithmetic>(
    r: Residues,
    g: Seq<Double>,
    h: Seq<Seq<Double>>,
    active: Seq<usize>,
    diag: Seq<Double>,
    x: Seq<Double>,
    step: Seq<Double>,
    i: int,
)
    requires
        r.exact::<F>(),
        diag.len() == active.len(),
        x.len() == active.len(),
        0 <= i < active.len(),
        spread_of::<F>(g.len(), active, diag, x, step),
        forall|k: int| 0 <= k < diag.len() ==> !r.same(r.at(#[trigger] diag[k]), 0),
        r.same(
            sum(
                |j: int| r.at(scaled_curvature::<F>(h, active, diag)[i][j]) * r.at(x[j]),
                active.len(),
            ),
            -r.at(scaled_slope::<F>(g, active, diag)[i]),
        ),
    ensures
        r.same(
            sum(
                |j: int|
                    r.at(h[active[i] as int][active[j] as int]) * r.at(step[active[j] as int]),
                active.len(),
            ),
            -r.at(g[active[i] as int]),
        ),
{
    let n = active.len();
    let c = scaled_curvature::<F>(h, active, diag);
    let s = scaled_slope::<F>(g, active, diag)[i];
    let di = r.at(diag[i]);
    r.itself(di);
    let f = |j: int| r.at(h[active[i] as int][active[j] as int]) * r.at(step[active[j] as int]);
    let e = |j: int| r.at(c[i][j]) * r.at(x[j]);
    let de = |j: int| di * e(j);
    assert forall|j: int| 0 <= j < n implies r.same(#[trigger] f(j), de(j)) by {
        let hd = h[active[i] as int][active[j] as int];
        let dj = r.at(diag[j]);
        assert(!r.same(r.at(diag[i]), 0));
        assert(!r.same(r.at(diag[j]), 0));
        r.itself(dj);
        r.itself(r.at(hd));
        r.itself(r.at(x[j]));
        let inv = r.inverse::<F>(diag[i], di);
        r.product_not_zero(di, dj, inv);
        r.on_times::<F>(diag[i], diag[j], di, dj);
        r.on_over::<F>(hd, times::<F>(diag[i], diag[j]), r.at(hd), di * dj);
        let sd = step[active[j] as int];
        assert(sd == over::<F>(x[j], diag[j]));
        r.on_over::<F>(x[j], diag[j], r.at(x[j]), dj);
        let (cv, sv, hv, xv) = (r.at(c[i][j]), r.at(sd), r.at(hd), r.at(x[j]));
        r.turned(cv * (di * dj), hv);
        r.scaled(hv, cv * (di * dj), sv);
        assert(cv * (di * dj) * sv == (di * cv) * (sv * dj)) by (nonlinear_arith);
        r.scaled(sv * dj, xv, di * cv);
        assert((di * cv) * xv == di * (cv * xv)) by (nonlinear_arith);
        r.chained(hv * sv, (di * cv) * (sv * dj), di * (cv * xv));
    }
    r.same_sums(f, de, n);
    lemma_sum_scaled(di, e, n);
    r.scaled(sum(e, n), -r.at(s), di);
    let gd = g[active[i] as int];
    r.itself(r.at(gd));
    assert(!r.same(r.at(diag[i]), 0));
    r.on_over::<F>(gd, diag[i], r.at(gd), di);
    r.scaled(r.at(s) * di, r.at(gd), 1);
    let sv = r.at(s);
    assert(di * -sv == -(sv * di)) by (nonlinear_arith);
    r.chained(sum(f, n), di * sum(e, n), di * -sv);
    r.chained(sum(f, n), -(sv * di), -r.at(gd));
}

/// The steepest descent is `-g` over the largest component.
pub proof fn law_descent_direction<F: Arithmetic>(r: Residues, g: Seq<Double>, i: int)
    requires
        r.exact::<F>(),
        0 <= i < g.len(),
        zero().below(inf_norm_spec(g)),
        !r.same(r.at(inf_norm_spec(g)), 0),
    ensures
        r.same(r.at(descent_spec::<F>(g)[i]) * r.at(inf_norm_spec(g)), -r.at(g[i])),
{
    let n = inf_norm_spec(g);
    r.itself(r.at(n));
    r.itself(r.at(g[i]));
    r.on_neg::<F>(g[i], r.at(g[i]));
    r.on_over::<F>(g[i].neg_spec(), n, -r.at(g[i]), r.at(n));
}

/// A matrix put together from eigenvalues and orthonormal vectors has those
/// eigenvalues: applied to vector `m` it gives `lam_m` times that vector.
pub proof fn law_recomposed_matrix_has_the_spectrum<F: Arithmetic>(
    r: Residues,
    lam: Seq<Double>,
    vecs: Seq<Seq<Double>>,
    i: int,
    m: int,
)
    requires
        r.exact::<F>(),
        0 <= i < lam.len(),
        0 <= m < lam.len(),
        forall|k: int|
            0 <= k < lam.len() ==> r.same(
                #[trigger] columns_product(r, vecs, lam.len(), k, m),
                if k == m {
                    1
                } else {
                    0
                },
            ),
    ensures
        r.same(
            sum(|j: int| r.at(recomposed_of::<F>(lam, vecs)[i][j]) * r.at(vecs[j][m]), lam.len()),
            r.at(lam[m]) * r.at(vecs[i][m]),
        ),
{
    let n = lam.len();
    let a = recomposed_of::<F>(lam, vecs);
    let u = |k: int| r.at(lam[k]) * r.at(vecs[i][k]);
    let both = |j: int, k: int| u(k) * (r.at(vecs[j][k]) * r.at(vecs[j][m]));
    let f = |j: int| r.at(a[i][j]) * r.at(vecs[j][m]);
    let rows = |j: int| sum(|k: int| both(j, k), n);
    assert forall|j: int| 0 <= j < n implies r.same(#[trigger] f(j), rows(j)) by {
        let term = |k: int| times::<F>(times::<F>(lam[k], vecs[i][k]), vecs[j][k]);
        let e = |k: int| u(k) * r.at(vecs[j][k]);
        assert forall|k: int| 0 <= k < n implies r.same(r.at(#[trigger] term(k)), e(k)) by {
            r.itself(r.at(lam[k]));
            r.itself(r.at(vecs[i][k]));
            r.itself(r.at(vecs[j][k]));
            r.on_times::<F>(lam[k], vecs[i][k], r.at(lam[k]), r.at(vecs[i][k]));
            r.on_times::<F>(times::<F>(lam[k], vecs[i][k]), vecs[j][k], u(k), r.at(vecs[j][k]));
        }
        r.on_total::<F>(term, e, n);
        assert(a[i][j] == total::<F>(term, n));
        let w = r.at(vecs[j][m]);
        r.scaled(r.at(a[i][j]), sum(e, n), w);
        lemma_sum_scaled(w, e, n);
        let g = |k: int| w * e(k);
        let b = |k: int| both(j, k);
        assert forall|k: int| 0 <= k < n implies #[trigger] g(k) == b(k) by {
            let (x, y) = (u(k), r.at(vecs[j][k]));
            assert(w * (x * y) == x * (y * w)) by (nonlinear_arith);
        }
        lemma_sum_congruent(g, b, n);
        let s = sum(e, n);
        assert(s * w == w * s) by (nonlinear_arith);
    }
    r.same_sums(f, rows, n);
    lemma_sums_swapped(both, n, n);
    let cols = |k: int| sum(|j: int| both(j, k), n);
    let id = |k: int|
        if k == m {
            u(m)
        } else {
            0
        };
    assert forall|k: int| 0 <= k < n implies r.same(#[trigger] cols(k), id(k)) by {
        let e = |j: int| r.at(vecs[j][k]) * r.at(vecs[j][m]);
        lemma_sum_scaled(u(k), e, n);
        lemma_sum_congruent(|j: int| both(j, k), |j: int| u(k) * e(j), n);
        let d = if k == m {
            1int
        } else {
            0int
        };
        assert(columns_product(r, vecs, n, k, m) == sum(e, n));
        r.scaled(sum(e, n), d, u(k));
        assert(u(k) * d == id(k)) by {
            let x = u(k);
            assert(x * 1 == x && x * 0 == 0);
        }
    }
    r.same_sums(cols, id, n);
    let none = |k: int| 0int;
    lemma_sum_zero(none, n);
    lemma_sum_changed(none, id, m, n);
    r.chained(sum(f, n), sum(rows, n), u(m));
}

/// The product of two columns: `sum_j v_jk v_jm`.
pub open spec fn columns_product(r: Residues, v: Seq<Seq<Double>>, n: nat, k: int, m: int) -> int {
    sum(|j: int| r.at(v[j][k]) * r.at(v[j][m]), n)
}

/// The numbers of an update of one log smoothing parameter: the smoothing parameter
/// `l` and the quadratic penalty `b`, at least 1e-20 and 1e-10; `d` stands for
/// `rank / l - tr(A^-1 S)`, at least 1e-10 in `n`; and `q` for `phi n / b`.
pub open spec fn fs_numbers<F: Arithmetic>(
    r: Residues,
    s: Seq<Seq<Double>>,
    rank: usize,
    rho: Double,
    phi: Double,
    beta: Seq<Double>,
    a_inv: Seq<Seq<Double>>,
    l: Double,
    b: Double,
    d: Double,
    n: Double,
    q: Double,
    pen: Double,
) -> bool {
    &&& l == exp::<F>(rho).max_spec(lit(E_M20))
    &&& r.same(r.at(pen), quadratic_int(r, s, beta))
    &&& b == pen.max_spec(lit(E_M10))
    &&& !r.same(r.at(l), 0) ==> r.same(
        (r.at(d) + trace_int(r, a_inv, s)) * r.at(l),
        rank as int,
    )
    &&& n == d.max_spec(lit(E_M10))
    &&& !r.same(r.at(b), 0) ==> r.same(r.at(q) * r.at(b), r.at(phi) * r.at(n))
}

/// The multiplicative update: the log smoothing parameter moves by
/// `ln(phi (rank / l - tr(A^-1 S)) / b'S b)`, at most the largest step either way,
/// and stays between the limits.
pub proof fn law_multiplicative_update<F: Arithmetic>(
    r: Residues,
    o: FellnerSchallOpts,
    s: Seq<Seq<Double>>,
    rank: usize,
    rho: Double,
    phi: Double,
    beta: Seq<Double>,
    a_inv: Seq<Seq<Double>>,
)
    requires
        r.exact::<F>(),
    ensures
        exists|l: Double, b: Double, d: Double, n: Double, q: Double, pen: Double| #[trigger]
            fs_numbers::<F>(r, s, rank, rho, phi, beta, a_inv, l, b, d, n, q, pen) && updated_of::<F>(
                o,
                s,
                rank,
                rho,
                phi,
                beta,
                a_inv,
            ) == plus::<F>(
                rho,
                ln::<F>(q).clamp_spec(o.log_step_clamp.neg_spec(), o.log_step_clamp),
            ).clamp_spec(ln::<F>(o.lambda_low), ln::<F>(o.lambda_high)),
{
    let l = exp::<F>(rho).max_spec(lit(E_M20));
    let pen = beta_sbeta_of::<F>(s, beta);
    let b = pen.max_spec(lit(E_M10));
    law_quadratic_penalty::<F>(r, s, beta);
    let tr = trace_product_of::<F>(a_inv, s);
    law_trace_of_product::<F>(r, a_inv, s);
    let t = trace_int(r, a_inv, s);
    let c = over::<F>(count::<F>(rank), l);
    let d = minus::<F>(c, tr);
    r.counted::<F>(rank);
    r.itself(r.at(l));
    r.itself(r.at(c));
    r.on_minus::<F>(c, tr, r.at(c), t);
    if !r.same(r.at(l), 0) {
        r.on_over::<F>(count::<F>(rank), l, rank as int, r.at(l));
        r.itself(t);
        r.summed(r.at(d), r.at(c) - t, t, t);
        r.scaled(r.at(d) + t, r.at(c), r.at(l));
        r.chained((r.at(d) + t) * r.at(l), r.at(c) * r.at(l), rank as int);
    }
    let n = d.max_spec(lit(E_M10));
    let q = over::<F>(times::<F>(phi, n), b);
    r.itself(r.at(phi));
    r.itself(r.at(n));
    r.itself(r.at(b));
    r.on_times::<F>(phi, n, r.at(phi), r.at(n));
    if !r.same(r.at(b), 0) {
        r.on_over::<F>(times::<F>(phi, n), b, r.at(phi) * r.at(n), r.at(b));
    }
    assert(fs_numbers::<F>(r, s, rank, rho, phi, beta, a_inv, l, b, d, n, q, pen));
}

/// The step of last resort points along the steepest descent and has the length of
/// the last step, at most the largest one: component by component,
/// `step_i |d| = d_i min(|last|, cap)`.
pub proof fn law_last_resort_step<F: Arithmetic>(r: Residues, last: Seq<Double>, d: Seq<Double>, i: int)
    requires
        r.exact::<F>(),
        0 <= i < d.len(),
        !r.same(r.at(l2_norm_of::<F>(d)), 0),
    ensures
        r.same(
            r.at(descent_step_of::<F>(last, d)[i]) * r.at(l2_norm_of::<F>(d)),
            r.at(d[i]) * r.at(l2_norm_of::<F>(last).min_spec(lit(MAX_S_STEP))),
        ),
{
    let (a, b) = (l2_norm_of::<F>(last).min_spec(lit(MAX_S_STEP)), l2_norm_of::<F>(d));
    r.itself(r.at(a));
    r.itself(r.at(b));
    r.itself(r.at(d[i]));
    r.on_over::<F>(a, b, r.at(a), r.at(b));
    let q = over::<F>(a, b);
    r.itself(r.at(q));
    r.on_times::<F>(d[i], q, r.at(d[i]), r.at(q));
    let (e, x, k, n) = (r.at(times::<F>(d[i], q)), r.at(d[i]), r.at(q), r.at(b));
    r.scaled(e, x * k, n);
    assert(x * k * n == x * (k * n)) by (nonlinear_arith);
    r.scaled(k * n, r.at(a), x);
    r.chained(e * n, x * (k * n), x * r.at(a));
}

/// The length of a vector is the root of the sum of its squares.
pub proof fn law_length_of_a_vector<F: Arithmetic>(r: Residues, v: Seq<Double>)
    requires
        r.exact::<F>(),
    ensures
        exists|s: Double| #[trigger]
            r.same(r.at(s), dot_int(r, v, v)) && l2_norm_of::<F>(v) == root::<F>(s),
{
    let t = |i: int| times::<F>(v[i], v[i]);
    let f = |i: int| r.at(v[i]) * r.at(v[i]);
    assert forall|i: int| 0 <= i < v.len() implies r.same(r.at(#[trigger] t(i)), f(i)) by {
        r.itself(r.at(v[i]));
        r.on_times::<F>(v[i], v[i], r.at(v[i]), r.at(v[i]));
    }
    r.on_total::<F>(t, f, v.len());
    let s = total::<F>(t, v.len());
    assert(r.same(r.at(s), dot_int(r, v, v)));
}

/// The largest change of a log smoothing parameter is no smaller than any change
/// that is a number, and it is none or one of the changes.
pub proof fn law_largest_parameter_change<F: Arithmetic>(a: Seq<Double>, b: Seq<Double>, n: nat)
    ensures
        !change_upto::<F>(a, b, n).nan(),
        !change_upto::<F>(a, b, n).negative(),
        forall|i: int|
            0 <= i < n && !(#[trigger] minus::<F>(a[i], b[i])).nan() ==> minus::<F>(
                a[i],
                b[i],
            ).abs_spec().at_most(change_upto::<F>(a, b, n)),
        change_upto::<F>(a, b, n) == zero() || exists|i: int|
            0 <= i < n && change_upto::<F>(a, b, n) == (#[trigger] minus::<F>(
                a[i],
                b[i],
            )).abs_spec(),
    decreases n,
{
    if n > 0 {
        law_largest_parameter_change::<F>(a, b, (n - 1) as nat);
        if change_upto::<F>(a, b, n) == minus::<F>(a[n - 1], b[n - 1]).abs_spec() {
        } else {
            assert(change_upto::<F>(a, b, n) == change_upto::<F>(a, b, (n - 1) as nat));
        }
    }
}

} // verus!
