//! Laws of the score and its gradient, in exact arithmetic.

use vstd::prelude::*;

use crate::arith::{count, exp, ln, minus, over, plus, times, total, Arithmetic};
use crate::double::{half, lit, two, Double, E_M300, PI};
use crate::exact::{lemma_sum_changed, sum, Residues};
use crate::inner::laws::{law_quadratic_penalty, law_trace_of_product, quadratic_int, trace_int};
use crate::inner::linalg::LinearSolver;
use crate::inner::GaussianInnerFit;
use crate::matrix::Matrix;
use crate::score::envelope::{
    bsb_of, drho_of, gradient_of, lambdas_of, log_det_penalty_of, reml_of, slope_of, traces_of,
    weight_chain_of, weighted_of, EnvelopeAcceptedState, EnvelopeScore, ScoreReading,
};
use crate::score::profile::{dp_of, n_minus_mp_of, DispersionInputs, MgcvTwoSigmaProfile, Profile};
use crate::traits::{DenseBackend, Loss};

verus! {

/// `sum_i a1_i eta1_i lev_i`.
pub open spec fn chain_int(r: Residues, a1: Seq<Double>, eta1: Seq<Double>, lev: Seq<Double>) -> int {
    sum(|i: int| r.at(a1[i]) * r.at(eta1[i]) * r.at(lev[i]), a1.len())
}

/// `sum_j (rank_j rho_j + log |S_j|+)`.
pub open spec fn penalty_int(r: Residues, ranks: Seq<usize>, theta: Seq<Double>, lpd: Seq<Double>) -> int {
    sum(|j: int| ranks[j] * r.at(theta[j]) + r.at(lpd[j]), theta.len())
}

/// The log pseudo-determinant of the penalty adds `rank_j rho_j` and `log |S_j|+`
/// of every term.
pub proof fn law_penalty_log_det<F: Arithmetic>(
    r: Residues,
    ranks: Seq<usize>,
    theta: Seq<Double>,
    lpd: Seq<Double>,
)
    requires
        r.exact::<F>(),
    ensures
        r.same(
            r.at(log_det_penalty_of::<F>(ranks, theta, lpd)),
            penalty_int(r, ranks, theta, lpd),
        ),
{
    let term = |j: int| plus::<F>(times::<F>(count::<F>(ranks[j]), theta[j]), lpd[j]);
    let f = |j: int| ranks[j] * r.at(theta[j]) + r.at(lpd[j]);
    assert forall|j: int| 0 <= j < theta.len() implies r.same(r.at(#[trigger] term(j)), f(j)) by {
        r.counted::<F>(ranks[j]);
        r.itself(r.at(theta[j]));
        r.itself(r.at(lpd[j]));
        r.on_times::<F>(count::<F>(ranks[j]), theta[j], ranks[j] as int, r.at(theta[j]));
        r.on_plus::<F>(
            times::<F>(count::<F>(ranks[j]), theta[j]),
            lpd[j],
            ranks[j] * r.at(theta[j]),
            r.at(lpd[j]),
        );
    }
    r.on_total::<F>(term, f, theta.len());
}

/// Twice the score times the dispersion, from its parts:
/// `Dp + s2 (log|H| - log|lS|+ - Mp ln(2 pi s2) - 2 ls)`.
pub open spec fn score_int<F: Arithmetic>(
    r: Residues,
    dp: int,
    s2: Double,
    mp: usize,
    log_det_h: int,
    penalty: int,
    ls: int,
) -> int {
    let l = r.at(ln::<F>(times::<F>(times::<F>(two(), lit(PI)), s2)));
    dp + r.at(s2) * (log_det_h - penalty - mp * l - 2 * ls)
}

/// The score is `Dp / (2 s2) - Mp/2 ln(2 pi s2) + log|H| / 2 - log|lS|+ / 2 - ls`.
pub proof fn law_score_from_its_parts<F: Arithmetic>(
    r: Residues,
    dp: Double,
    s2: Double,
    mp: usize,
    log_det_h: Double,
    penalty: Double,
    ls: Double,
    d: int,
    h: int,
    s: int,
    l: int,
)
    requires
        r.exact::<F>(),
        !r.same(r.at(s2), 0),
        r.same(r.at(dp), d),
        r.same(r.at(log_det_h), h),
        r.same(r.at(penalty), s),
        r.same(r.at(ls), l),
    ensures
        r.same(
            2 * r.at(s2) * r.at(reml_of::<F>(dp, s2, mp, log_det_h, penalty, ls)),
            score_int::<F>(r, d, s2, mp, h, s, l),
        ),
{
    let v = r.at(s2);
    r.constants::<F>();
    r.counted::<F>(mp);
    r.itself(v);
    let two_s2 = times::<F>(two(), s2);
    r.on_times::<F>(two(), s2, 2, v);
    let inv2 = r.at(half());
    assert(inv2 * 2 == 2 * inv2);
    r.product_not_zero(2, v, inv2);
    let fit = over::<F>(dp, two_s2);
    r.on_over::<F>(dp, two_s2, d, 2 * v);
    let lnd = ln::<F>(times::<F>(times::<F>(two(), lit(PI)), s2));
    let x = r.at(lnd);
    r.itself(x);
    let hm = times::<F>(half(), count::<F>(mp));
    r.on_half::<F>(count::<F>(mp), mp as int);
    r.itself(r.at(hm));
    let scale = times::<F>(hm, lnd);
    r.on_times::<F>(hm, lnd, r.at(hm), x);
    r.on_half::<F>(log_det_h, h);
    r.on_half::<F>(penalty, s);
    let hh = times::<F>(half(), log_det_h);
    let hs = times::<F>(half(), penalty);
    let (fv, cv, hv, sv) = (r.at(fit), r.at(scale), r.at(hh), r.at(hs));
    r.itself(fv);
    r.itself(cv);
    r.itself(hv);
    r.itself(sv);
    let a = minus::<F>(fit, scale);
    r.on_minus::<F>(fit, scale, fv, cv);
    let b = plus::<F>(a, hh);
    r.on_plus::<F>(a, hh, fv - cv, hv);
    let c = minus::<F>(b, hs);
    r.on_minus::<F>(b, hs, fv - cv + hv, sv);
    let e = minus::<F>(c, ls);
    r.on_minus::<F>(c, ls, fv - cv + hv - sv, l);
    let ev = r.at(e);
    // Twice the sum, times the dispersion.
    r.scaled(ev, fv - cv + hv - sv - l, 2 * v);
    assert(2 * v * (fv - cv + hv - sv - l) == fv * (2 * v) + v * (2 * hv - 2 * sv - 2 * cv - 2 * l))
        by (nonlinear_arith);
    // Twice the scale part.
    let m = r.at(hm);
    r.scaled(cv, m * x, 2);
    assert(2 * (m * x) == (2 * m) * x) by (nonlinear_arith);
    r.scaled(2 * m, mp as int, x);
    r.chained(2 * cv, (2 * m) * x, mp * x);
    r.scaled(2 * cv, mp * x, 1);
    r.scaled(2 * sv, s, 1);
    r.itself(-2 * l);
    r.summed(2 * hv, h, -(2 * sv), -s);
    r.summed(2 * hv - 2 * sv, h - s, -(2 * cv), -(mp * x));
    r.summed(2 * hv - 2 * sv - 2 * cv, h - s - mp * x, -2 * l, -2 * l);
    r.scaled(2 * hv - 2 * sv - 2 * cv - 2 * l, h - s - mp * x - 2 * l, v);
    r.summed(
        fv * (2 * v),
        d,
        v * (2 * hv - 2 * sv - 2 * cv - 2 * l),
        v * (h - s - mp * x - 2 * l),
    );
    r.chained(
        2 * v * ev,
        2 * v * (fv - cv + hv - sv - l),
        d + v * (h - s - mp * x - 2 * l),
    );
}

/// A slope is `l b'Sb / (2 s2) + l tr / 2 - rank / 2`.
proof fn lemma_slope<F: Arithmetic>(
    r: Residues,
    lambda: Double,
    bsb: Double,
    tr: Double,
    rank: usize,
    s2: Double,
    q: int,
    t: int,
)
    requires
        r.exact::<F>(),
        !r.same(r.at(s2), 0),
        r.same(r.at(bsb), q),
        r.same(r.at(tr), t),
    ensures
        r.same(
            2 * r.at(s2) * r.at(slope_of::<F>(lambda, bsb, tr, rank, s2)),
            r.at(lambda) * q + r.at(s2) * (r.at(lambda) * t - rank),
        ),
{
    let (v, l) = (r.at(s2), r.at(lambda));
    r.constants::<F>();
    r.counted::<F>(rank);
    r.itself(v);
    r.itself(l);
    let two_s2 = times::<F>(two(), s2);
    r.on_times::<F>(two(), s2, 2, v);
    let inv2 = r.at(half());
    assert(inv2 * 2 == 2 * inv2);
    r.product_not_zero(2, v, inv2);
    let lb = times::<F>(lambda, bsb);
    r.on_times::<F>(lambda, bsb, l, q);
    let fit = over::<F>(lb, two_s2);
    r.on_over::<F>(lb, two_s2, l * q, 2 * v);
    let hl = times::<F>(half(), lambda);
    r.on_half::<F>(lambda, l);
    r.itself(r.at(hl));
    let tp = times::<F>(hl, tr);
    r.on_times::<F>(hl, tr, r.at(hl), t);
    let hr = times::<F>(half(), count::<F>(rank));
    r.on_half::<F>(count::<F>(rank), rank as int);
    let (fv, tv, rv) = (r.at(fit), r.at(tp), r.at(hr));
    r.itself(fv);
    r.itself(tv);
    r.itself(rv);
    let a = plus::<F>(fit, tp);
    r.on_plus::<F>(fit, tp, fv, tv);
    let e = minus::<F>(a, hr);
    r.on_minus::<F>(a, hr, fv + tv, rv);
    r.scaled(r.at(e), fv + tv - rv, 2 * v);
    assert(2 * v * (fv + tv - rv) == fv * (2 * v) + v * (2 * tv - 2 * rv)) by (nonlinear_arith);
    let h = r.at(hl);
    r.scaled(tv, h * t, 2);
    assert(2 * (h * t) == (2 * h) * t) by (nonlinear_arith);
    r.scaled(2 * h, l, t);
    r.chained(2 * tv, (2 * h) * t, l * t);
    r.scaled(2 * rv, rank as int, 1);
    r.summed(2 * tv, l * t, -(2 * rv), -(rank as int));
    r.scaled(2 * tv - 2 * rv, l * t - rank, v);
    r.summed(fv * (2 * v), l * q, v * (2 * tv - 2 * rv), v * (l * t - rank));
    r.chained(2 * v * r.at(e), 2 * v * (fv + tv - rv), l * q + v * (l * t - rank));
}

/// `exp(rho_j) b'S_j b`.
pub open spec fn term_penalty_int<F: Arithmetic>(
    r: Residues,
    s_list: Seq<Matrix>,
    theta: Seq<Double>,
    beta: Seq<Double>,
    j: int,
) -> int {
    r.at(exp::<F>(theta[j])) * quadratic_int(r, s_list[j]@, beta)
}

/// The score of a fit, term by term: the deviance and the penalty of every term
/// over twice the dispersion, half the log determinant, less half the log
/// pseudo-determinant of the penalty, `Mp/2 ln(2 pi s2)` and the saturated
/// log-likelihood.
pub proof fn law_score_of_a_fit<F: Arithmetic, L: Loss, I, P, D: DenseBackend, S: LinearSolver>(
    r: Residues,
    score: EnvelopeScore<L, I, P, D, S>,
    theta: Seq<Double>,
    fit: GaussianInnerFit<S>,
    q: ScoreReading,
    s2: Double,
)
    requires
        r.exact::<F>(),
        q.sigma2 == Some(s2),
        !r.same(r.at(s2), 0),
        theta.len() == score.s_list@.len(),
    ensures
        r.same(
            2 * r.at(s2) * r.at(score.value_at::<F>(theta, fit, q)),
            score_int::<F>(
                r,
                r.at(fit.deviance) + sum(
                    |j: int| term_penalty_int::<F>(r, score.s_list@, theta, fit.beta@, j),
                    theta.len(),
                ),
                s2,
                score.mp,
                r.at(q.log_det_h),
                penalty_int(r, score.rank_s_list@, theta, score.log_pseudo_det_s_list@),
                sum(|i: int| r.at(q.sat[i]), score.y@.len()),
            ),
        ),
{
    let lambda = lambdas_of::<F>(theta);
    let bsb = bsb_of::<F>(score.s_list@, fit.beta@);
    let term = |j: int| times::<F>(lambda[j], bsb[j]);
    let f = |j: int| term_penalty_int::<F>(r, score.s_list@, theta, fit.beta@, j);
    assert forall|j: int| 0 <= j < theta.len() implies r.same(r.at(#[trigger] term(j)), f(j)) by {
        law_quadratic_penalty::<F>(r, score.s_list@[j]@, fit.beta@);
        r.itself(r.at(lambda[j]));
        r.on_times::<F>(
            lambda[j],
            bsb[j],
            r.at(lambda[j]),
            quadratic_int(r, score.s_list@[j]@, fit.beta@),
        );
    }
    r.on_total::<F>(term, f, theta.len());
    r.itself(r.at(fit.deviance));
    let pen = weighted_of::<F>(lambda, bsb);
    let dp = plus::<F>(fit.deviance, pen);
    r.on_plus::<F>(fit.deviance, pen, r.at(fit.deviance), sum(f, theta.len()));
    law_penalty_log_det::<F>(r, score.rank_s_list@, theta, score.log_pseudo_det_s_list@);
    let sat = |i: int| q.sat[i];
    let g = |i: int| r.at(q.sat[i]);
    assert forall|i: int| 0 <= i < score.y@.len() implies r.same(r.at(#[trigger] sat(i)), g(i)) by {
        r.itself(r.at(q.sat[i]));
    }
    r.on_total::<F>(sat, g, score.y@.len());
    r.itself(r.at(q.log_det_h));
    law_score_from_its_parts::<F>(
        r,
        dp,
        s2,
        score.mp,
        q.log_det_h,
        log_det_penalty_of::<F>(score.rank_s_list@, theta, score.log_pseudo_det_s_list@),
        total::<F>(sat, score.y@.len()),
        r.at(fit.deviance) + sum(f, theta.len()),
        r.at(q.log_det_h),
        penalty_int(r, score.rank_s_list@, theta, score.log_pseudo_det_s_list@),
        sum(g, score.y@.len()),
    );
}

/// The trace that belongs to term `k`: of the weight chain where there is one,
/// else `tr(A^-1 S_k)`.
pub open spec fn term_trace_int(r: Residues, q: ScoreReading, s: Seq<Seq<Double>>, k: int) -> int {
    match q.tk {
        Some(t) => r.at(t.tr_a_newton_inv_s_per_term@[k]),
        None => trace_int(r, q.a_inv@, s),
    }
}

/// The weight chain of term `k`, nothing without.
pub open spec fn term_chain_int(r: Residues, q: ScoreReading, k: int) -> int {
    match q.tk {
        Some(t) => chain_int(r, t.a1@, t.eta1_per_term@[k]@, t.lev_uw@),
        None => 0,
    }
}

/// Entry `k` of the gradient belongs to term `k`: it is
/// `l_k b'S_k b / (2 s2) + (l_k tr_k + chain_k - rank_k) / 2` with the smoothing
/// parameter, penalty, trace and rank of that term.
pub proof fn law_gradient_of_a_fit<F: Arithmetic, L: Loss, I, P, D: DenseBackend, S: LinearSolver>(
    r: Residues,
    score: EnvelopeScore<L, I, P, D, S>,
    theta: Seq<Double>,
    fit: GaussianInnerFit<S>,
    q: ScoreReading,
    s2: Double,
    k: int,
)
    requires
        r.exact::<F>(),
        q.sigma2 == Some(s2),
        !r.same(r.at(s2), 0),
        theta.len() == score.s_list@.len(),
        0 <= k < theta.len(),
    ensures
        r.same(
            2 * r.at(s2) * r.at(score.grad_at::<F>(theta, fit, q)[k]),
            term_penalty_int::<F>(r, score.s_list@, theta, fit.beta@, k) + r.at(s2) * (r.at(
                exp::<F>(theta[k]),
            ) * term_trace_int(r, q, score.s_list@[k]@, k) + term_chain_int(r, q, k)
                - score.rank_s_list@[k]),
        ),
{
    let lambda = lambdas_of::<F>(theta)[k];
    let bsb = bsb_of::<F>(score.s_list@, fit.beta@)[k];
    let v = r.at(s2);
    let b = quadratic_int(r, score.s_list@[k]@, fit.beta@);
    law_quadratic_penalty::<F>(r, score.s_list@[k]@, fit.beta@);
    let rank = score.rank_s_list@[k];
    match q.tk {
        Some(t) => {
            let tr = t.tr_a_newton_inv_s_per_term@[k];
            let (a1, e1, lev) = (t.a1@, t.eta1_per_term@[k]@, t.lev_uw@);
            r.itself(r.at(tr));
            lemma_slope::<F>(r, lambda, bsb, tr, rank, s2, b, r.at(tr));
            let base = slope_of::<F>(lambda, bsb, tr, rank, s2);
            let w = weight_chain_of::<F>(a1, e1, lev);
            law_weight_chain::<F>(r, a1, e1, lev);
            let c = chain_int(r, a1, e1, lev);
            r.on_half::<F>(w, c);
            let hw = times::<F>(half(), w);
            r.itself(r.at(base));
            r.itself(r.at(hw));
            r.on_plus::<F>(base, hw, r.at(base), r.at(hw));
            let e = plus::<F>(base, hw);
            let (bv, hv) = (r.at(base), r.at(hw));
            r.scaled(r.at(e), bv + hv, 2 * v);
            assert(2 * v * (bv + hv) == 2 * v * bv + v * (2 * hv)) by (nonlinear_arith);
            r.scaled(2 * hv, c, v);
            let x = r.at(lambda) * b + v * (r.at(lambda) * r.at(tr) - rank);
            r.summed(2 * v * bv, x, v * (2 * hv), v * c);
            r.chained(2 * v * r.at(e), 2 * v * (bv + hv), x + v * c);
            let y = r.at(lambda) * r.at(tr);
            assert(v * (y - rank) + v * c == v * (y + c - rank)) by (nonlinear_arith);
        },
        None => {
            law_trace_of_product::<F>(r, q.a_inv@, score.s_list@[k]@);
            lemma_slope::<F>(
                r,
                lambda,
                bsb,
                traces_of::<F>(score.s_list@, q.a_inv@)[k],
                rank,
                s2,
                b,
                trace_int(r, q.a_inv@, score.s_list@[k]@),
            );
        },
    }
}

/// The weight chain is `sum_i a1_i eta1_i lev_i`.
pub proof fn law_weight_chain<F: Arithmetic>(
    r: Residues,
    a1: Seq<Double>,
    eta1: Seq<Double>,
    lev: Seq<Double>,
)
    requires
        r.exact::<F>(),
    ensures
        r.same(r.at(weight_chain_of::<F>(a1, eta1, lev)), chain_int(r, a1, eta1, lev)),
{
    let term = |i: int| times::<F>(times::<F>(a1[i], eta1[i]), lev[i]);
    let f = |i: int| r.at(a1[i]) * r.at(eta1[i]) * r.at(lev[i]);
    assert forall|i: int| 0 <= i < a1.len() implies r.same(r.at(#[trigger] term(i)), f(i)) by {
        r.itself(r.at(a1[i]));
        r.itself(r.at(eta1[i]));
        r.itself(r.at(lev[i]));
        r.on_times::<F>(a1[i], eta1[i], r.at(a1[i]), r.at(eta1[i]));
        r.on_times::<F>(
            times::<F>(a1[i], eta1[i]),
            lev[i],
            r.at(a1[i]) * r.at(eta1[i]),
            r.at(lev[i]),
        );
    }
    r.on_total::<F>(term, f, a1.len());
}

/// The gradient is taken term by term: two lists of terms, in whatever order, have
/// the same entry wherever they have the same term. So permuting the terms permutes
/// the gradient.
pub proof fn law_gradient_goes_by_terms<F: Arithmetic>(
    lambda: Seq<Double>,
    bsb: Seq<Double>,
    tr: Seq<Double>,
    ranks: Seq<usize>,
    lambda2: Seq<Double>,
    bsb2: Seq<Double>,
    tr2: Seq<Double>,
    ranks2: Seq<usize>,
    s2: Double,
    k: int,
    l: int,
)
    requires
        0 <= k < lambda.len(),
        0 <= l < lambda2.len(),
        lambda[k] == lambda2[l],
        bsb[k] == bsb2[l],
        tr[k] == tr2[l],
        ranks[k] == ranks2[l],
    ensures
        gradient_of::<F>(lambda, bsb, tr, ranks, s2, None)[k] == gradient_of::<F>(
            lambda2,
            bsb2,
            tr2,
            ranks2,
            s2,
            None,
        )[l],
{
}

/// Gradient and score belong together along every term: where term `k` has no
/// penalty to pay (its smoothing parameter is zero), moving its log smoothing
/// parameter by `d` changes the score by `d` times entry `k` of the gradient. What
/// changes is the log pseudo-determinant of the penalty alone.
pub proof fn law_gradient_is_the_slope_of_the_penalty<F: Arithmetic>(
    r: Residues,
    ranks: Seq<usize>,
    theta: Seq<Double>,
    moved: Seq<Double>,
    lpd: Seq<Double>,
    k: int,
    dp: Double,
    s2: Double,
    mp: usize,
    log_det_h: Double,
    ls: Double,
    lambda: Seq<Double>,
    bsb: Seq<Double>,
    tr: Seq<Double>,
)
    requires
        r.exact::<F>(),
        !r.same(r.at(s2), 0),
        0 <= k < theta.len(),
        moved.len() == theta.len(),
        lambda.len() == theta.len(),
        r.same(r.at(lambda[k]), 0),
        forall|j: int| 0 <= j < theta.len() && j != k ==> #[trigger] moved[j] == theta[j],
    ensures
        ({
            let d = r.at(moved[k]) - r.at(theta[k]);
            let at = |t: Seq<Double>|
                r.at(reml_of::<F>(dp, s2, mp, log_det_h, log_det_penalty_of::<F>(ranks, t, lpd), ls));
            let g = r.at(gradient_of::<F>(lambda, bsb, tr, ranks, s2, None)[k]);
            r.same(2 * r.at(s2) * (at(moved) - at(theta)), 2 * r.at(s2) * g * d)
        }),
{
    let v = r.at(s2);
    let d = r.at(moved[k]) - r.at(theta[k]);
    let (s, t) = (penalty_int(r, ranks, theta, lpd), penalty_int(r, ranks, moved, lpd));
    law_penalty_log_det::<F>(r, ranks, theta, lpd);
    law_penalty_log_det::<F>(r, ranks, moved, lpd);
    r.itself(r.at(dp));
    r.itself(r.at(log_det_h));
    r.itself(r.at(ls));
    law_score_from_its_parts::<F>(
        r,
        dp,
        s2,
        mp,
        log_det_h,
        log_det_penalty_of::<F>(ranks, theta, lpd),
        ls,
        r.at(dp),
        r.at(log_det_h),
        s,
        r.at(ls),
    );
    law_score_from_its_parts::<F>(
        r,
        dp,
        s2,
        mp,
        log_det_h,
        log_det_penalty_of::<F>(ranks, moved, lpd),
        ls,
        r.at(dp),
        r.at(log_det_h),
        t,
        r.at(ls),
    );
    let f = |j: int| ranks[j] * r.at(theta[j]) + r.at(lpd[j]);
    let g = |j: int| ranks[j] * r.at(moved[j]) + r.at(lpd[j]);
    lemma_sum_changed(f, g, k, theta.len());
    let n = ranks[k] as int;
    let (x, y) = (r.at(theta[k]), r.at(moved[k]));
    assert(n * y - n * x == n * (y - x)) by (nonlinear_arith);
    assert(t - s == n * d);
    let v1 = r.at(reml_of::<F>(dp, s2, mp, log_det_h, log_det_penalty_of::<F>(ranks, theta, lpd), ls));
    let v2 = r.at(reml_of::<F>(dp, s2, mp, log_det_h, log_det_penalty_of::<F>(ranks, moved, lpd), ls));
    let l = r.at(ln::<F>(times::<F>(times::<F>(two(), lit(PI)), s2)));
    let (i1, i2) = (
        score_int::<F>(r, r.at(dp), s2, mp, r.at(log_det_h), s, r.at(ls)),
        score_int::<F>(r, r.at(dp), s2, mp, r.at(log_det_h), t, r.at(ls)),
    );
    r.scaled(2 * v * v1, i1, 1);
    r.summed(2 * v * v2, i2, -(2 * v * v1), -i1);
    assert(2 * v * (v2 - v1) == 2 * v * v2 - 2 * v * v1) by (nonlinear_arith);
    let rest = r.at(log_det_h) - mp * l - 2 * r.at(ls);
    assert(v * (rest - t) - v * (rest - s) == -(v * (t - s))) by (nonlinear_arith);
    assert(r.at(log_det_h) - t - mp * l - 2 * r.at(ls) == rest - t);
    assert(r.at(log_det_h) - s - mp * l - 2 * r.at(ls) == rest - s);
    assert(i2 - i1 == -(v * (n * d)));
    // The gradient's entry.
    let e = r.at(gradient_of::<F>(lambda, bsb, tr, ranks, s2, None)[k]);
    r.itself(r.at(bsb[k]));
    r.itself(r.at(tr[k]));
    lemma_slope::<F>(r, lambda[k], bsb[k], tr[k], ranks[k], s2, r.at(bsb[k]), r.at(tr[k]));
    let (la, qb, tb) = (r.at(lambda[k]), r.at(bsb[k]), r.at(tr[k]));
    r.scaled(la, 0, qb);
    r.scaled(la, 0, tb);
    r.itself(-n);
    r.summed(la * tb, 0 * tb, -n, -n);
    r.scaled(la * tb - n, -n, v);
    r.summed(la * qb, 0 * qb, v * (la * tb - n), v * (-n));
    r.chained(2 * v * e, la * qb + v * (la * tb - n), v * (-n));
    r.scaled(2 * v * e, v * (-n), d);
    assert(v * (-n) * d == -(v * (n * d))) by (nonlinear_arith);
    r.turned(2 * v * e * d, v * (-n) * d);
    r.chained(2 * v * (v2 - v1), i2 - i1, 2 * v * e * d);
}

/// Carried coefficients follow the derivatives: `b_r + sum_k b1_kr drho_k`, with the
/// steps of the log smoothing parameters since the accepted point.
pub proof fn law_carried_coefficients<F: Arithmetic>(
    r: Residues,
    st: EnvelopeAcceptedState,
    theta: Seq<Double>,
    c: int,
)
    requires
        r.exact::<F>(),
        0 <= c < st.beta@.len(),
    ensures
        r.same(
            r.at(st.carried::<F>(theta)[c]),
            r.at(st.beta@[c]) + sum(
                |k: int| r.at(st.b1@[k]@[c]) * r.at(drho_of::<F>(theta[k], st.lambda@[k])),
                theta.len(),
            ),
        ),
{
    let d = st.drhos::<F>(theta);
    let term = |k: int| times::<F>(st.b1@[k]@[c], d[k]);
    let f = |k: int| r.at(st.b1@[k]@[c]) * r.at(drho_of::<F>(theta[k], st.lambda@[k]));
    assert forall|k: int| 0 <= k < theta.len() implies r.same(r.at(#[trigger] term(k)), f(k)) by {
        r.itself(r.at(st.b1@[k]@[c]));
        r.itself(r.at(d[k]));
        r.on_times::<F>(st.b1@[k]@[c], d[k], r.at(st.b1@[k]@[c]), r.at(d[k]));
    }
    r.itself(r.at(st.beta@[c]));
    r.on_total_from::<F>(st.beta@[c], term, r.at(st.beta@[c]), f, theta.len());
}

/// The step of a log smoothing parameter is the log of the ratio of the smoothing
/// parameters, each at least 1e-300.
pub proof fn law_step_of_a_log_parameter<F: Arithmetic>(r: Residues, theta: Double, saved: Double)
    requires
        r.exact::<F>(),
        !r.same(r.at(saved.max_spec(lit(E_M300))), 0),
    ensures
        exists|q: Double| #[trigger]
            r.same(
                r.at(q) * r.at(saved.max_spec(lit(E_M300))),
                r.at(exp::<F>(theta).max_spec(lit(E_M300))),
            ) && drho_of::<F>(theta, saved) == ln::<F>(q),
{
    let (a, b) = (exp::<F>(theta).max_spec(lit(E_M300)), saved.max_spec(lit(E_M300)));
    r.itself(r.at(a));
    r.itself(r.at(b));
    r.on_over::<F>(a, b, r.at(a), r.at(b));
    let q = over::<F>(a, b);
    assert(r.same(r.at(q) * r.at(b), r.at(a)));
}

/// The profiled dispersion is asked for the penalised deviance `D + l b'Sb`, for
/// `n - Mp` free observations, and starts at their ratio; its derivatives along the
/// log smoothing parameters are `l_k b'S_k b / (n - Mp)`.
pub proof fn law_profiled_inputs<F: Arithmetic>(
    r: Residues,
    n: usize,
    deviance: Double,
    x: DispersionInputs,
)
    requires
        r.exact::<F>(),
        !r.same(n - x.mp, 0),
    ensures
        ({
            let (dp, nm) = (dp_of::<F>(deviance, x), n_minus_mp_of::<F>(n, x.mp));
            &&& r.same(r.at(dp), r.at(deviance) + r.at(x.lambda) * r.at(x.bsb))
            &&& r.same(r.at(nm), n - x.mp)
            &&& r.same(r.at(over::<F>(dp, nm)) * (n - x.mp), r.at(dp))
        }),
{
    let (dp, nm) = (dp_of::<F>(deviance, x), n_minus_mp_of::<F>(n, x.mp));
    r.counted::<F>(n);
    r.counted::<F>(x.mp);
    r.on_minus::<F>(count::<F>(n), count::<F>(x.mp), n as int, x.mp as int);
    r.itself(r.at(deviance));
    r.itself(r.at(x.lambda));
    r.itself(r.at(x.bsb));
    r.on_times::<F>(x.lambda, x.bsb, r.at(x.lambda), r.at(x.bsb));
    r.on_plus::<F>(
        deviance,
        times::<F>(x.lambda, x.bsb),
        r.at(deviance),
        r.at(x.lambda) * r.at(x.bsb),
    );
    r.itself(r.at(dp));
    r.on_over::<F>(dp, nm, r.at(dp), n - x.mp);
}

/// The derivatives of a profiled dispersion in closed form, term by term:
/// `l_k b'S_k b / (n - Mp)`.
pub proof fn law_profiled_slopes<F: Arithmetic, L: Loss>(
    r: Residues,
    loss: L,
    n: usize,
    bsb: Seq<Double>,
    lambda: Seq<Double>,
    mp: usize,
    v: Vec<Double>,
    k: int,
)
    requires
        r.exact::<F>(),
        !r.same(n - mp, 0),
        Profile::<F, L>::slopes(&MgcvTwoSigmaProfile, loss, n, bsb, lambda, mp, Some(v)),
        0 <= k < bsb.len(),
    ensures
        v@.len() == bsb.len(),
        r.same(r.at(v@[k]) * (n - mp), r.at(lambda[k]) * r.at(bsb[k])),
{
    r.counted::<F>(n);
    r.counted::<F>(mp);
    r.on_minus::<F>(count::<F>(n), count::<F>(mp), n as int, mp as int);
    r.itself(r.at(lambda[k]));
    r.itself(r.at(bsb[k]));
    r.on_times::<F>(lambda[k], bsb[k], r.at(lambda[k]), r.at(bsb[k]));
    r.on_over::<F>(
        times::<F>(lambda[k], bsb[k]),
        n_minus_mp_of::<F>(n, mp),
        r.at(lambda[k]) * r.at(bsb[k]),
        n - mp,
    );
}

/// What the dispersion is computed from: the penalty `sum_j l_j b'S_j b`, and the
/// effective parameters `p - sum_j l_j tr(A^-1 S_j)`.
pub proof fn law_dispersion_inputs<F: Arithmetic, L: Loss, I, P, D: DenseBackend, S: LinearSolver>(
    r: Residues,
    score: EnvelopeScore<L, I, P, D, S>,
    theta: Seq<Double>,
    fit: GaussianInnerFit<S>,
    a_inv: Seq<Seq<Double>>,
)
    requires
        r.exact::<F>(),
        theta.len() == score.s_list@.len(),
    ensures
        ({
            let x = score.dispersion_inputs::<F>(theta, fit, a_inv);
            &&& x.mp == score.mp
            &&& r.same(r.at(x.lambda), 1)
            &&& r.same(
                r.at(x.bsb),
                sum(
                    |j: int| term_penalty_int::<F>(r, score.s_list@, theta, fit.beta@, j),
                    theta.len(),
                ),
            )
            &&& r.same(
                r.at(x.tr_hinv_xtwx),
                fit.p - sum(
                    |j: int|
                        r.at(exp::<F>(theta[j])) * trace_int(r, a_inv, score.s_list@[j]@),
                    theta.len(),
                ),
            )
        }),
{
    let lambda = lambdas_of::<F>(theta);
    let bsb = bsb_of::<F>(score.s_list@, fit.beta@);
    let tr = traces_of::<F>(score.s_list@, a_inv);
    r.constants::<F>();
    r.counted::<F>(fit.p);
    let t = |j: int| times::<F>(lambda[j], bsb[j]);
    let f = |j: int| term_penalty_int::<F>(r, score.s_list@, theta, fit.beta@, j);
    let u = |j: int| times::<F>(lambda[j], tr[j]);
    let g = |j: int| r.at(exp::<F>(theta[j])) * trace_int(r, a_inv, score.s_list@[j]@);
    assert forall|j: int| 0 <= j < theta.len() implies r.same(r.at(#[trigger] t(j)), f(j)) by {
        law_quadratic_penalty::<F>(r, score.s_list@[j]@, fit.beta@);
        r.itself(r.at(lambda[j]));
        r.on_times::<F>(
            lambda[j],
            bsb[j],
            r.at(lambda[j]),
            quadratic_int(r, score.s_list@[j]@, fit.beta@),
        );
    }
    assert forall|j: int| 0 <= j < theta.len() implies r.same(r.at(#[trigger] u(j)), g(j)) by {
        law_trace_of_product::<F>(r, a_inv, score.s_list@[j]@);
        r.itself(r.at(lambda[j]));
        r.on_times::<F>(
            lambda[j],
            tr[j],
            r.at(lambda[j]),
            trace_int(r, a_inv, score.s_list@[j]@),
        );
    }
    r.on_total::<F>(t, f, theta.len());
    r.on_total::<F>(u, g, theta.len());
    r.on_minus::<F>(
        count::<F>(fit.p),
        weighted_of::<F>(lambda, tr),
        fit.p as int,
        sum(g, theta.len()),
    );
}

} // verus!
