//! Curvature of the penalised deviance at a fit: the log determinants that enter
//! the score, and what their derivatives are made from.

use vstd::prelude::*;

use crate::arith::{exp, lawful, ln, minus, over, plus, times, total, Arithmetic};
use crate::dense::{
    column_of, dot, dot_of, gram, gram_of, mat_mul, mat_mul_of, mat_plus, mat_plus_of, mat_vec,
    mat_vec_of, scaled_rows, scaled_rows_of, symmetrised, symmetrised_of, trace_product,
    trace_product_of, unit_of,
};
use crate::double::{lit, one, two, zero, Double, E_M12, E_M3, E_M300, E_M6};
use crate::inner::closed_form::prior_or_ones;
use crate::inner::linalg::{chol_solution, CholeskySolver, LinearSolver};
use crate::inner::pirls::{
    alpha_of, fisher_weight_of, floored_variance, read_row, row_read, RowShape,
};
use crate::inner::{all_finite, penalties_fit, GaussianInnerFit, TkKKTInputs};
use crate::matrix::{fill_vec, symmetric, Matrix};
use crate::outer::step::{recompose, recomposed_of, Spectrum};
use crate::stats::{add_count, count_up};
use crate::traits::{
    checked_cholesky, checked_eigh, chol_fails, chol_of, eigh_fails, eigh_of, DenseBackend, Family,
    Link, Loss, VarianceFn,
};

verus! {

/// `X' diag(w) X + S`, symmetrised.
pub open spec fn score_curvature_of<F: Arithmetic>(
    x: Seq<Seq<Double>>,
    p: nat,
    w: Seq<Double>,
    s: Seq<Seq<Double>>,
) -> Seq<Seq<Double>> {
    symmetrised_of::<F>(
        mat_plus_of::<F>(gram_of::<F>(x, p, scaled_rows_of::<F>(x, p, w), p), s),
    )
}

/// Builds `X' diag(w) X + S` and symmetrises it.
pub fn score_curvature<F: Arithmetic>(x: &Matrix, w: &Vec<Double>, s: &Matrix) -> (r: Matrix)
    requires
        lawful::<F>(),
        x.shape(w@.len(), x.cols as nat),
        s.square(x.cols as nat),
    ensures
        r.square(x.cols as nat),
        r@ == score_curvature_of::<F>(x@, x.cols as nat, w@, s@),
        symmetric(r@),
{
    let wx: Matrix = scaled_rows::<F>(x, w);
    let h: Matrix = gram::<F>(x, &wx);
    let hs: Matrix = mat_plus::<F>(&h, s);
    symmetrised::<F>(&hs)
}

/// A diagonal entry that has a usable logarithm.
pub open spec fn usable_pivot(x: Double) -> bool {
    x.finite() && !x.abs_spec().below(lit(E_M300))
}

/// Twice the sum of the logs of a factor's diagonal, or nothing where an entry is
/// not finite or is tiny.
pub open spec fn chol_log_det_spec<F: Arithmetic>(l: Seq<Seq<Double>>) -> Option<Double> {
    if forall|i: int| 0 <= i < l.len() ==> usable_pivot(#[trigger] l[i][i]) {
        Some(times::<F>(two(), total::<F>(|i: int| ln::<F>(l[i][i]), l.len())))
    } else {
        None
    }
}

/// The log determinant from a lower factor, where its diagonal is usable.
pub fn log_det_from_chol<F: Arithmetic>(l: &Matrix) -> (r: Option<Double>)
    requires
        lawful::<F>(),
        l.square(l@.len()),
    ensures
        r == chol_log_det_spec::<F>(l@),
{
    let mut acc: Double = zero();
    for i in 0..l.rows.len()
        invariant
            lawful::<F>(),
            l.square(l@.len()),
            forall|k: int| 0 <= k < i ==> usable_pivot(#[trigger] l@[k][k]),
            acc == total::<F>(|i: int| ln::<F>(l@[i][i]), i as nat),
    {
        let d: Double = l.get(i, i);
        if !d.is_finite() || d.abs().lt(lit(E_M300)) {
            assert(!usable_pivot(l@[i as int][i as int]));
            return None;
        }
        acc = plus::<F>(acc, ln::<F>(d));
    }
    Some(times::<F>(two(), acc))
}

/// The sum of the logs of the absolute eigenvalues, or nothing where one is not
/// finite or is tiny.
pub open spec fn eig_log_det_spec<F: Arithmetic>(eigs: Seq<Double>) -> Option<Double> {
    if forall|i: int| 0 <= i < eigs.len() ==> usable_pivot(#[trigger] eigs[i]) {
        Some(total::<F>(|i: int| ln::<F>(eigs[i].abs_spec()), eigs.len()))
    } else {
        None
    }
}

/// The log of the absolute determinant from eigenvalues, where they are usable.
pub fn log_det_from_eigs<F: Arithmetic>(eigs: &Vec<Double>) -> (r: Option<Double>)
    requires
        lawful::<F>(),
    ensures
        r == eig_log_det_spec::<F>(eigs@),
{
    let mut acc: Double = zero();
    for i in 0..eigs.len()
        invariant
            lawful::<F>(),
            forall|k: int| 0 <= k < i ==> usable_pivot(#[trigger] eigs@[k]),
            acc == total::<F>(|i: int| ln::<F>(eigs@[i].abs_spec()), i as nat),
    {
        let a: Double = eigs[i].abs();
        if a.lt(lit(E_M300)) || !a.is_finite() {
            assert(!usable_pivot(eigs@[i as int]));
            return None;
        }
        acc = plus::<F>(acc, ln::<F>(a));
    }
    Some(acc)
}

/// How often the observed curvature gave a usable determinant, and how often not.
#[derive(Clone, Copy, Debug, PartialEq, Eq, Structural)]
pub struct ObservedPdCounts {
    /// Usable.
    pub ok: usize,
    /// Not usable.
    pub fallback: usize,
}

impl ObservedPdCounts {
    /// Both at zero.
    pub fn new() -> (c: ObservedPdCounts)
        ensures
            c.ok == 0,
            c.fallback == 0,
    {
        ObservedPdCounts { ok: 0, fallback: 0 }
    }

    /// Counts one outcome.
    pub fn count(&mut self, usable: bool)
        ensures
            *final(self) == (if usable {
                ObservedPdCounts { ok: count_up(old(self).ok, 1), ..*old(self) }
            } else {
                ObservedPdCounts { fallback: count_up(old(self).fallback, 1), ..*old(self) }
            }),
    {
        if usable {
            self.ok = add_count(self.ok, 1);
        } else {
            self.fallback = add_count(self.fallback, 1);
        }
    }
}

/// The counts with one more outcome, if there is one.
pub open spec fn with_outcome(before: ObservedPdCounts, outcome: Option<bool>) -> ObservedPdCounts {
    match outcome {
        Some(usable) => if usable {
            ObservedPdCounts { ok: count_up(before.ok, 1), ..before }
        } else {
            ObservedPdCounts { fallback: count_up(before.fallback, 1), ..before }
        },
        None => before,
    }
}

/// The counts with some more outcomes.
pub open spec fn with_outcomes(before: ObservedPdCounts, outcomes: Seq<bool>) -> ObservedPdCounts
    decreases outcomes.len(),
{
    if outcomes.len() == 0 {
        before
    } else {
        with_outcome(with_outcomes(before, outcomes.drop_last()), Some(outcomes.last()))
    }
}

/// Some outcomes were counted, none where the switch is off.
pub open spec fn counted_some(on: bool, before: ObservedPdCounts, after: ObservedPdCounts) -> bool {
    exists|o: Seq<bool>| after == #[trigger] with_outcomes(before, o) && (on || o.len() == 0)
}

/// Counting nothing, or one outcome, or more after some, is counting some.
pub proof fn law_counts_add_up(
    on: bool,
    a: ObservedPdCounts,
    b: ObservedPdCounts,
    outcome: Option<bool>,
    c: ObservedPdCounts,
)
    requires
        counted_some(on, a, b),
        on || outcome is None,
    ensures
        counted_some(on, a, a),
        counted_some(on, a, with_outcome(b, outcome)),
        counted_some(on, b, c) ==> counted_some(on, a, c),
{
    assert(with_outcomes(a, Seq::<bool>::empty()) == a);
    let o = choose|o: Seq<bool>| b == #[trigger] with_outcomes(a, o) && (on || o.len() == 0);
    match outcome {
        Some(u) => {
            let p = o.push(u);
            assert(p.drop_last() =~= o);
            assert(with_outcomes(a, p) == with_outcome(b, outcome));
        },
        None => {},
    }
    if counted_some(on, b, c) {
        let q = choose|q: Seq<bool>| c == #[trigger] with_outcomes(b, q) && (on || q.len() == 0);
        lemma_outcomes_join(a, o, q);
        assert(c == with_outcomes(a, o + q));
    }
}

/// Counting some after some is counting some.
pub broadcast proof fn lemma_counted_transitive(
    on: bool,
    a: ObservedPdCounts,
    b: ObservedPdCounts,
    c: ObservedPdCounts,
)
    requires
        #[trigger] counted_some(on, a, b),
        #[trigger] counted_some(on, b, c),
    ensures
        counted_some(on, a, c),
{
    law_counts_add_up(on, a, b, None, c);
}

proof fn lemma_outcomes_join(a: ObservedPdCounts, o: Seq<bool>, q: Seq<bool>)
    ensures
        with_outcomes(with_outcomes(a, o), q) == with_outcomes(a, o + q),
    decreases q.len(),
{
    if q.len() == 0 {
        assert(o + q =~= o);
    } else {
        lemma_outcomes_join(a, o, q.drop_last());
        assert((o + q).drop_last() =~= o + q.drop_last());
    }
}

/// The two counts, usable first.
pub fn observed_pd_counts(c: &ObservedPdCounts) -> (r: (usize, usize))
    ensures
        r == (c.ok, c.fallback),
{
    (c.ok, c.fallback)
}

/// Sets both counts to zero.
pub fn reset_observed_pd_counts(c: &mut ObservedPdCounts)
    ensures
        final(c).ok == 0,
        final(c).fallback == 0,
{
    c.ok = 0;
    c.fallback = 0;
}

/// A letter of the English alphabet in lower case; any other character as it is.
pub open spec fn lower_char(c: char) -> char {
    if 'A' <= c && c <= 'Z' {
        (c as u32 + 32) as char
    } else {
        c
    }
}

/// The switch is on for `1` and for `true` in any case.
pub open spec fn switch_on(v: Option<Seq<char>>) -> bool {
    match v {
        Some(t) => t == "1"@ || (t.len() == 4 && lower_char(t[0]) == 't' && lower_char(t[1]) == 'r'
            && lower_char(t[2]) == 'u' && lower_char(t[3]) == 'e'),
        None => false,
    }
}

/// Whether a letter is `lower` in either case, where `upper` is its capital.
fn is_letter(c: char, lower: char, upper: char) -> (b: bool)
    requires
        'A' <= upper && upper <= 'Z',
        lower as u32 == upper as u32 + 32,
    ensures
        b == (lower_char(c) == lower),
{
    c == lower || c == upper
}

/// Whether the observed curvature enters the score, from the value of the switch
/// `GAMRS_OBSERVED_LOG_DET_H`: `1`, or `true` in any case.
pub fn observed_log_det_h_enabled(value: Option<&str>) -> (b: bool)
    ensures
        b == switch_on(match value {
            Some(v) => Some(v@),
            None => None,
        }),
{
    match value {
        Some(v) => {
            if crate::text::same_text(v, "1") {
                return true;
            }
            if v.unicode_len() != 4 {
                return false;
            }
            is_letter(v.get_char(0), 't', 'T') && is_letter(v.get_char(1), 'r', 'R') && is_letter(
                v.get_char(2),
                'u',
                'U',
            ) && is_letter(v.get_char(3), 'e', 'E')
        },
        None => false,
    }
}

/// Whether the score's log determinant has to be computed apart from the fit's
/// own factor.
pub fn score_log_det_h_applies(use_newton_irls: bool, observed_on: bool) -> (b: bool)
    ensures
        b == (use_newton_irls || observed_on),
{
    use_newton_irls || observed_on
}

/// `V' diag(1/e) V` style inverse from a usable spectrum.
pub open spec fn spectral_inverse_of<F: Arithmetic>(eigs: Seq<Double>, vecs: Seq<Seq<Double>>) -> Seq<
    Seq<Double>,
> {
    recomposed_of::<F>(Seq::new(eigs.len(), |k: int| over::<F>(one(), eigs[k])), vecs)
}

/// The inverse of a symmetric matrix from its spectrum, where every eigenvalue is
/// usable.
pub fn spectral_inverse<F: Arithmetic>(sp: &Spectrum) -> (r: Option<Matrix>)
    requires
        lawful::<F>(),
        sp.fits(sp.eigs@.len()),
    ensures
        match r {
            Some(m) => m.square(sp.eigs@.len()) && m@ == spectral_inverse_of::<F>(sp.eigs@, sp.vecs@)
                && forall|k: int| 0 <= k < sp.eigs@.len() ==> usable_pivot(#[trigger] sp.eigs@[k]),
            None => exists|k: int| 0 <= k < sp.eigs@.len() && !usable_pivot(#[trigger] sp.eigs@[k]),
        },
{
    let mut lam: Vec<Double> = Vec::new();
    for k in 0..sp.eigs.len()
        invariant
            lawful::<F>(),
            lam@.len() == k,
            forall|m: int| 0 <= m < k ==> usable_pivot(#[trigger] sp.eigs@[m]),
            forall|m: int| 0 <= m < k ==> #[trigger] lam@[m] == over::<F>(one(), sp.eigs@[m]),
    {
        let e: Double = sp.eigs[k];
        if !e.is_finite() || e.abs().lt(lit(E_M300)) {
            assert(!usable_pivot(sp.eigs@[k as int]));
            return None;
        }
        lam.push(over::<F>(one(), e));
    }
    assert(lam@ =~= Seq::new(sp.eigs@.len(), |k: int| over::<F>(one(), sp.eigs@[k])));
    Some(recompose::<F>(&lam, &sp.vecs))
}

/// The family's functions at one mean, with the higher derivatives.
#[derive(Clone, Copy, Debug, PartialEq, Eq, Structural)]
pub struct RowJet {
    /// The functions and their lower derivatives.
    pub shape: RowShape,
    /// Second derivative of the variance.
    pub v2: Double,
    /// Third derivative of the link.
    pub g3: Double,
}

/// The derivative of a Newton weight along the linear predictor's mean. Zero
/// where the link is flat.
pub open spec fn a1_row_of<F: Arithmetic>(y: Double, mu: Double, w_newton: Double, j: RowJet) -> Double {
    let s = j.shape;
    if s.g1.abs_spec().below(lit(E_M12)) {
        zero()
    } else {
        let var = floored_variance(s);
        let v1n = over::<F>(s.v1, var);
        let v2n = over::<F>(j.v2, var);
        let g2n = over::<F>(s.g2, s.g1);
        let g3n = over::<F>(j.g3, s.g1);
        let c = minus::<F>(y, mu);
        let raw = alpha_of::<F>(y, mu, s);
        let alpha = if raw.at_most(zero()) {
            one()
        } else {
            raw
        };
        let xx = minus::<F>(
            plus::<F>(minus::<F>(v2n, times::<F>(v1n, v1n)), g3n),
            times::<F>(g2n, g2n),
        );
        let alpha1 = over::<F>(
            plus::<F>(plus::<F>(v1n, g2n).neg_spec(), times::<F>(c, xx)),
            alpha,
        );
        times::<F>(
            times::<F>(
                w_newton,
                minus::<F>(minus::<F>(alpha1, v1n), times::<F>(two(), g2n)),
            ),
            over::<F>(one(), s.g1),
        )
    }
}

/// The derivative of a Newton weight along the linear predictor's mean.
pub fn a1_row<F: Arithmetic>(y: Double, mu: Double, w_newton: Double, j: RowJet) -> (r: Double)
    requires
        lawful::<F>(),
    ensures
        r == a1_row_of::<F>(y, mu, w_newton, j),
{
    let s: RowShape = j.shape;
    if s.g1.abs().lt(lit(E_M12)) {
        return zero();
    }
    let var: Double = s.variance.max(lit(E_M300));
    let v1n: Double = over::<F>(s.v1, var);
    let v2n: Double = over::<F>(j.v2, var);
    let g2n: Double = over::<F>(s.g2, s.g1);
    let g3n: Double = over::<F>(j.g3, s.g1);
    let c: Double = minus::<F>(y, mu);
    let raw: Double = plus::<F>(one(), times::<F>(c, plus::<F>(v1n, g2n)));
    let alpha: Double = if raw.le(zero()) {
        one()
    } else {
        raw
    };
    let xx: Double = minus::<F>(
        plus::<F>(minus::<F>(v2n, times::<F>(v1n, v1n)), g3n),
        times::<F>(g2n, g2n),
    );
    let alpha1: Double = over::<F>(
        plus::<F>(plus::<F>(v1n, g2n).neg(), times::<F>(c, xx)),
        alpha,
    );
    times::<F>(
        times::<F>(w_newton, minus::<F>(minus::<F>(alpha1, v1n), times::<F>(two(), g2n))),
        over::<F>(one(), s.g1),
    )
}

/// `x_i' A x_i` of each row, with `A` applied to the row first.
pub open spec fn leverage_of<F: Arithmetic>(x: Seq<Seq<Double>>, p: nat, a: Seq<Seq<Double>>) -> Seq<Double> {
    let xa = mat_mul_of::<F>(x, a, p);
    Seq::new(x.len(), |i: int| dot_of::<F>(xa[i], x[i]))
}

/// The leverage `x_i' A x_i` of each row.
pub fn leverage<F: Arithmetic>(x: &Matrix, a: &Matrix) -> (r: Vec<Double>)
    requires
        lawful::<F>(),
        x.shape(x@.len(), x.cols as nat),
        a.square(x.cols as nat),
    ensures
        r@ == leverage_of::<F>(x@, x.cols as nat, a@),
{
    let xa: Matrix = mat_mul::<F>(x, a);
    let entry = |i: usize| -> (v: Double)
        requires
            i < x@.len(),
        ensures
            v == dot_of::<F>(xa@[i as int], x@[i as int]),
        { dot::<F>(&xa.rows[i], &x.rows[i]) };
    let r: Vec<Double> = fill_vec(x.rows.len(), entry);
    assert(r@ =~= leverage_of::<F>(x@, x.cols as nat, a@));
    r
}

/// The derivative of the linear predictor along a log smoothing parameter:
/// `-exp(rho) X A S b`.
pub open spec fn eta1_of<F: Arithmetic>(
    x: Seq<Seq<Double>>,
    a: Seq<Seq<Double>>,
    s: Seq<Seq<Double>>,
    beta: Seq<Double>,
    rho: Double,
) -> Seq<Double> {
    let asb = mat_vec_of::<F>(a, mat_vec_of::<F>(s, beta));
    mat_vec_of::<F>(
        x,
        Seq::new(asb.len(), |i: int| times::<F>(exp::<F>(rho).neg_spec(), asb[i])),
    )
}

/// The derivative of the linear predictor along a log smoothing parameter.
pub fn eta1<F: Arithmetic>(x: &Matrix, a: &Matrix, s: &Matrix, beta: &Vec<Double>, rho: Double) -> (r: Vec<Double>)
    requires
        lawful::<F>(),
        x.shape(x@.len(), beta@.len()),
        a.square(beta@.len()),
        s.square(beta@.len()),
    ensures
        r@ == eta1_of::<F>(x@, a@, s@, beta@, rho),
{
    let sb: Vec<Double> = mat_vec::<F>(s, beta);
    let asb: Vec<Double> = mat_vec::<F>(a, &sb);
    let neg_lambda: Double = exp::<F>(rho).neg();
    let entry = |i: usize| -> (v: Double)
        requires
            i < asb@.len(),
        ensures
            v == times::<F>(neg_lambda, asb@[i as int]),
        { times::<F>(neg_lambda, asb[i]) };
    let b1: Vec<Double> = fill_vec(asb.len(), entry);
    assert(b1@ =~= Seq::new(asb@.len(), |i: int| times::<F>(exp::<F>(rho).neg_spec(), asb@[i])));
    mat_vec::<F>(x, &b1)
}

/// The Fisher weight of an observation as a function of its mean, from the
/// variance and link derivative there.
pub open spec fn weight_at<F: Arithmetic>(prior: Double, variance: Double, g1: Double) -> Double {
    over::<F>(prior, times::<F>(times::<F>(variance.max_spec(lit(E_M300)), g1), g1))
}

/// The step of the difference quotient at a mean: `1e-6 max(|mu|, 1e-3)`.
pub open spec fn mean_step<F: Arithmetic>(mu: Double) -> Double {
    times::<F>(lit(E_M6), mu.abs_spec().max_spec(lit(E_M3)))
}

/// The derivative of the Fisher weight along the linear predictor, by a central
/// difference in the mean. `up` and `down` are variance and link derivative at
/// the displaced means.
pub open spec fn dw_deta_of<F: Arithmetic>(
    mu: Double,
    prior: Double,
    g1: Double,
    up: (Double, Double),
    down: (Double, Double),
) -> Double {
    over::<F>(
        over::<F>(
            minus::<F>(
                weight_at::<F>(prior, up.0, up.1),
                weight_at::<F>(prior, down.0, down.1),
            ),
            times::<F>(two(), mean_step::<F>(mu)),
        ),
        g1,
    )
}

/// The derivative of one observation's Fisher weight along the linear predictor.
pub fn dw_deta_row<F: Arithmetic>(
    mu: Double,
    prior: Double,
    g1: Double,
    up: (Double, Double),
    down: (Double, Double),
) -> (r: Double)
    requires
        lawful::<F>(),
    ensures
        r == dw_deta_of::<F>(mu, prior, g1, up, down),
{
    let hi: Double = over::<F>(
        prior,
        times::<F>(times::<F>(up.0.max(lit(E_M300)), up.1), up.1),
    );
    let lo: Double = over::<F>(
        prior,
        times::<F>(times::<F>(down.0.max(lit(E_M300)), down.1), down.1),
    );
    let h: Double = times::<F>(lit(E_M6), mu.abs().max(lit(E_M3)));
    over::<F>(over::<F>(minus::<F>(hi, lo), times::<F>(two(), h)), g1)
}

/// `w` are usable observed curvatures as the loss gives them.
pub open spec fn observed_weights_of<L: Loss>(
    loss: L,
    y: Vec<Double>,
    eta: Vec<Double>,
    prior: Vec<Double>,
    w: Vec<Double>,
) -> bool {
    &&& call_ensures(L::observed_curvature_weights, (&loss, &y, &eta, &prior), Some(w))
    &&& w@.len() == y@.len()
    &&& forall|i: int| 0 <= i < w@.len() ==> (#[trigger] w@[i]).finite()
}

/// The loss answers without usable observed curvatures.
pub open spec fn no_observed_weights<L: Loss>(
    loss: L,
    y: Vec<Double>,
    eta: Vec<Double>,
    prior: Vec<Double>,
) -> bool {
    exists|r: Option<Vec<Double>>| #[trigger]
        call_ensures(L::observed_curvature_weights, (&loss, &y, &eta, &prior), r) && (r matches Some(w)
            ==> !observed_weights_of::<L>(loss, y, eta, prior, w))
}

/// The observed curvature that the score should use: the family's, where the
/// switch is on, the family supplies it and every entry is finite.
pub fn family_observed_score_weights<L: Loss>(
    on: bool,
    loss: &L,
    y: &Vec<Double>,
    eta: &Vec<Double>,
    prior: &Vec<Double>,
) -> (r: Option<Vec<Double>>)
    ensures
        !on ==> r is None,
        r matches Some(w) ==> observed_weights_of::<L>(*loss, *y, *eta, *prior, w),
        on && r is None ==> no_observed_weights::<L>(*loss, *y, *eta, *prior),
{
    if !on {
        return None;
    }
    match loss.observed_curvature_weights(y, eta, prior) {
        Some(w) => if w.len() == y.len() && all_finite(&w) {
            Some(w)
        } else {
            None
        },
        None => None,
    }
}

/// There is no lower factor of `a`, or its diagonal is not usable.
pub open spec fn factor_unusable<F: Arithmetic, D: DenseBackend>(a: Seq<Seq<Double>>) -> bool {
    ||| chol_fails::<D>(a)
    ||| exists|l: Matrix|
        #![trigger chol_log_det_spec::<F>(l@)]
        chol_of::<D>(a, l) && chol_log_det_spec::<F>(l@) is None
}

/// The log determinant of the observed penalised curvature, as family and backend
/// answer: `None` where the switch is off, the family has no usable observed
/// curvature, or the matrix has no usable lower factor. Where there is observed
/// curvature, the outcome says whether it gave a value.
pub open spec fn observed_log_det_of<F: Arithmetic, L: Loss, D: DenseBackend>(
    on: bool,
    loss: L,
    y: Vec<Double>,
    eta: Vec<Double>,
    prior: Vec<Double>,
    x: Matrix,
    s_total: Seq<Seq<Double>>,
    r: Option<Double>,
    outcome: Option<bool>,
) -> bool {
    if !on {
        r is None && outcome is None
    } else {
        ||| r is None && outcome is None && no_observed_weights::<L>(loss, y, eta, prior)
        ||| outcome == Some(r is Some) && exists|w: Vec<Double>| #[trigger]
            observed_weights_of::<L>(loss, y, eta, prior, w) && chol_log_det_answered::<F, D>(
                score_curvature_of::<F>(x@, x.cols as nat, w@, s_total),
                r,
            )
    }
}

/// The log determinant from the lower factor that the backend gives, if it is
/// usable.
pub open spec fn chol_log_det_answered<F: Arithmetic, D: DenseBackend>(a: Seq<Seq<Double>>, r: Option<Double>) -> bool {
    match r {
        Some(v) => exists|l: Matrix| #[trigger]
            chol_of::<D>(a, l) && chol_log_det_spec::<F>(l@) == Some(v),
        None => factor_unusable::<F, D>(a),
    }
}

/// The log determinant of the observed penalised curvature. `None` where the
/// switch is off, the family has no usable observed curvature, or the matrix has
/// no usable lower factor; the last is counted as a fallback, a value as a
/// success.
pub fn observed_log_det_h<F: Arithmetic, L: Loss, D: DenseBackend>(
    on: bool,
    loss: &L,
    y: &Vec<Double>,
    eta: &Vec<Double>,
    prior: &Vec<Double>,
    x: &Matrix,
    s_total: &Matrix,
    counts: &mut ObservedPdCounts,
) -> (r: Option<Double>)
    requires
        lawful::<F>(),
        x.shape(y@.len(), x.cols as nat),
        s_total.square(x.cols as nat),
    ensures
        exists|o: Option<bool>| #[trigger]
            observed_log_det_of::<F, L, D>(on, *loss, *y, *eta, *prior, *x, s_total@, r, o)
                && *final(counts) == with_outcome(*old(counts), o),
{
    match family_observed_score_weights::<L>(on, loss, y, eta, prior) {
        Some(w) => {
            let h: Matrix = score_curvature::<F>(x, &w, s_total);
            match checked_cholesky::<D>(&h, x.cols) {
                Ok(l) => {
                    let v: Option<Double> = log_det_from_chol::<F>(&l);
                    assert(chol_of::<D>(h@, l));
                    counts.count(v.is_some());
                    assert(observed_log_det_of::<F, L, D>(
                        on,
                        *loss,
                        *y,
                        *eta,
                        *prior,
                        *x,
                        s_total@,
                        v,
                        Some(v is Some),
                    ));
                    v
                },
                Err(_) => {
                    assert(chol_fails::<D>(h@));
                    counts.count(false);
                    assert(observed_log_det_of::<F, L, D>(
                        on,
                        *loss,
                        *y,
                        *eta,
                        *prior,
                        *x,
                        s_total@,
                        None,
                        Some(false),
                    ));
                    None
                },
            }
        },
        None => {
            assert(observed_log_det_of::<F, L, D>(
                on,
                *loss,
                *y,
                *eta,
                *prior,
                *x,
                s_total@,
                None,
                None,
            ));
            None
        },
    }
}

/// Each weight is `prior wf alpha` for some answers of link and variance.
pub open spec fn newton_weights_of<F: Arithmetic, K: Link, V: VarianceFn>(
    link: K,
    variance: V,
    y: Seq<Double>,
    mu: Seq<Double>,
    prior: Seq<Double>,
    w: Seq<Double>,
) -> bool {
    w.len() == y.len() && forall|i: int|
        0 <= i < y.len() ==> newton_weight_from::<F, K, V>(
            link,
            variance,
            y[i],
            mu[i],
            prior[i],
            #[trigger] w[i],
        )
}

/// `w` is `prior wf alpha` for some answers of link and variance.
pub open spec fn newton_weight_from<F: Arithmetic, K: Link, V: VarianceFn>(
    link: K,
    variance: V,
    y: Double,
    mu: Double,
    prior: Double,
    w: Double,
) -> bool {
    exists|s: RowShape| #[trigger]
        row_read::<K, V>(link, variance, mu, s) && w == times::<F>(
            times::<F>(prior, fisher_weight_of::<F>(s)),
            alpha_of::<F>(y, mu, s),
        )
}

/// The Newton weights `prior wf alpha`, negative ones among them.
pub fn newton_score_weights<F: Arithmetic, K: Link, V: VarianceFn>(
    link: &K,
    variance: &V,
    y: &Vec<Double>,
    mu: &Vec<Double>,
    prior: &Vec<Double>,
) -> (w: Vec<Double>)
    requires
        lawful::<F>(),
        mu@.len() == y@.len(),
        prior@.len() == y@.len(),
    ensures
        newton_weights_of::<F, K, V>(*link, *variance, y@, mu@, prior@, w@),
{
    let mut w: Vec<Double> = Vec::new();
    for i in 0..y.len()
        invariant
            lawful::<F>(),
            mu@.len() == y@.len(),
            prior@.len() == y@.len(),
            w@.len() == i,
            forall|k: int|
                0 <= k < i ==> newton_weight_from::<F, K, V>(
                    *link,
                    *variance,
                    y@[k],
                    mu@[k],
                    prior@[k],
                    #[trigger] w@[k],
                ),
    {
        let s: RowShape = read_row::<K, V>(link, variance, mu[i]);
        let var: Double = s.variance.max(lit(E_M300));
        let wf: Double = over::<F>(one(), times::<F>(times::<F>(var, s.g1), s.g1));
        let ratio: Double = plus::<F>(over::<F>(s.v1, var), over::<F>(s.g2, s.g1));
        let alpha: Double = plus::<F>(one(), times::<F>(minus::<F>(y[i], mu[i]), ratio));
        let wi: Double = times::<F>(times::<F>(prior[i], wf), alpha);
        assert(row_read::<K, V>(*link, *variance, mu@[i as int], s));
        assert(newton_weight_from::<F, K, V>(
            *link,
            *variance,
            y@[i as int],
            mu@[i as int],
            prior@[i as int],
            wi,
        ));
        w.push(wi);
    }
    w
}

/// The log determinant of a symmetric matrix: from its lower factor where it has
/// one, else from its eigenvalues. `None` where neither is usable.
pub fn symmetric_log_det<F: Arithmetic, D: DenseBackend>(a: &Matrix) -> (r: Option<Double>)
    requires
        lawful::<F>(),
        a.square(a@.len()),
    ensures
        match r {
            Some(v) => log_det_known::<F, D>(a@, v),
            None => log_det_fails::<F, D>(a@),
        },
{
    let p: usize = a.rows.len();
    match checked_cholesky::<D>(a, p) {
        Ok(l) => {
            assert(chol_of::<D>(a@, l));
            log_det_from_chol::<F>(&l)
        },
        Err(_) => {
            assert(chol_fails::<D>(a@));
            match checked_eigh::<D>(a, p) {
                Some(s) => {
                    assert(eigh_of::<D>(a@, s));
                    log_det_from_eigs::<F>(&s.eigs)
                },
                None => {
                    assert(eigh_fails::<D>(a@));
                    None
                },
            }
        },
    }
}

/// The log determinant of the penalised curvature at Newton weights, as the
/// backend factors it; `None` where a weight is not finite or no factorisation
/// is usable.
pub open spec fn newton_log_det_of<F: Arithmetic, K: Link, V: VarianceFn, D: DenseBackend>(
    link: K,
    variance: V,
    y: Seq<Double>,
    mu: Seq<Double>,
    prior: Seq<Double>,
    x: Matrix,
    s_total: Seq<Seq<Double>>,
    r: Option<Double>,
) -> bool {
    exists|w: Seq<Double>| #[trigger]
        newton_weights_of::<F, K, V>(link, variance, y, mu, prior, w) && match r {
            Some(v) => all_finite_seq(w) && log_det_known::<F, D>(
                score_curvature_of::<F>(x@, x.cols as nat, w, s_total),
                v,
            ),
            None => !all_finite_seq(w) || log_det_fails::<F, D>(
                score_curvature_of::<F>(x@, x.cols as nat, w, s_total),
            ),
        }
}

/// Every entry is finite.
pub open spec fn all_finite_seq(w: Seq<Double>) -> bool {
    forall|i: int| 0 <= i < w.len() ==> (#[trigger] w[i]).finite()
}

/// The log determinant of the penalised Newton curvature. `None` where a weight
/// is not finite or the matrix has no usable factorisation.
pub fn lazy_newton_log_det_h<F: Arithmetic, K: Link, V: VarianceFn, D: DenseBackend>(
    link: &K,
    variance: &V,
    y: &Vec<Double>,
    mu: &Vec<Double>,
    prior: &Vec<Double>,
    x: &Matrix,
    s_total: &Matrix,
) -> (r: Option<Double>)
    requires
        lawful::<F>(),
        mu@.len() == y@.len(),
        prior@.len() == y@.len(),
        x.shape(y@.len(), x.cols as nat),
        s_total.square(x.cols as nat),
    ensures
        newton_log_det_of::<F, K, V, D>(*link, *variance, y@, mu@, prior@, *x, s_total@, r),
{
    let w: Vec<Double> = newton_score_weights::<F, K, V>(link, variance, y, mu, prior);
    if !all_finite(&w) {
        return None;
    }
    let a: Matrix = score_curvature::<F>(x, &w, s_total);
    symmetric_log_det::<F, D>(&a)
}

/// `v` is the log determinant of `a` by a usable factor that `D` gives, or, where
/// it gives none, by a usable spectrum.
pub open spec fn log_det_known<F: Arithmetic, D: DenseBackend>(a: Seq<Seq<Double>>, v: Double) -> bool {
    (exists|l: Matrix|
        #![trigger chol_log_det_spec::<F>(l@)]
        chol_of::<D>(a, l) && chol_log_det_spec::<F>(l@) == Some(v)) || (chol_fails::<D>(a) && exists|
        s: Spectrum,
    |
        #![trigger eig_log_det_spec::<F>(s.eigs@)]
        eigh_of::<D>(a, s) && eig_log_det_spec::<F>(s.eigs@) == Some(v))
}

/// The lower factor that `D` gives of `a` is not usable; or there is none, and
/// there is no usable spectrum either.
pub open spec fn log_det_fails<F: Arithmetic, D: DenseBackend>(a: Seq<Seq<Double>>) -> bool {
    ||| exists|l: Matrix|
        #![trigger chol_log_det_spec::<F>(l@)]
        chol_of::<D>(a, l) && chol_log_det_spec::<F>(l@) is None
    ||| chol_fails::<D>(a) && eigh_fails::<D>(a)
    ||| chol_fails::<D>(a) && exists|s: Spectrum|
        #![trigger eig_log_det_spec::<F>(s.eigs@)]
        eigh_of::<D>(a, s) && eig_log_det_spec::<F>(s.eigs@) is None
}

/// There is no lower factor of `a`, and no usable spectrum either.
pub open spec fn inverse_fails<D: DenseBackend>(a: Seq<Seq<Double>>) -> bool {
    chol_fails::<D>(a) && (eigh_fails::<D>(a) || exists|s: Spectrum|
        #![trigger eigh_of::<D>(a, s)]
        eigh_of::<D>(a, s) && exists|k: int|
            0 <= k < s.eigs@.len() && !usable_pivot(#[trigger] s.eigs@[k]))
}

/// `m` is an inverse of `a` by a lower factor that `D` gives, or, where it gives
/// none, by a usable spectrum.
pub open spec fn inverse_known<F: Arithmetic, D: DenseBackend>(a: Seq<Seq<Double>>, m: Matrix) -> bool {
    (exists|l: Matrix|
        #![trigger chol_of::<D>(a, l)]
        chol_of::<D>(a, l) && forall|j: int|
            0 <= j < a.len() ==> chol_solution::<F>(l@, unit_of(a.len(), j), #[trigger] column_of(m@, j)))
        || (chol_fails::<D>(a) && exists|s: Spectrum|
        #![trigger eigh_of::<D>(a, s)]
        eigh_of::<D>(a, s) && m@ == spectral_inverse_of::<F>(s.eigs@, s.vecs@))
}

/// The inverse of a symmetric matrix: from its lower factor where it has one, else
/// from its spectrum where every eigenvalue is usable.
pub fn symmetric_inverse<F: Arithmetic, D: DenseBackend>(a: &Matrix) -> (r: Option<Matrix>)
    requires
        lawful::<F>(),
        a.square(a@.len()),
    ensures
        match r {
            Some(m) => m.square(a@.len()) && inverse_known::<F, D>(a@, m),
            None => inverse_fails::<D>(a@),
        },
{
    let p: usize = a.rows.len();
    match checked_cholesky::<D>(a, p) {
        Ok(l) => {
            assert(chol_of::<D>(a@, l));
            let m: Matrix = CholeskySolver::invert::<F>(&l);
            assert(inverse_known::<F, D>(a@, m));
            Some(m)
        },
        Err(_) => {
            assert(chol_fails::<D>(a@));
            match checked_eigh::<D>(a, p) {
                Some(s) => {
                    assert(eigh_of::<D>(a@, s));
                    spectral_inverse::<F>(&s)
                },
                None => {
                    assert(eigh_fails::<D>(a@));
                    None
                },
            }
        },
    }
}

/// The family's answers at a mean, with the higher derivatives.
pub open spec fn jet_read<K: Link, V: VarianceFn>(link: K, variance: V, mu: Double, j: RowJet) -> bool {
    &&& row_read::<K, V>(link, variance, mu, j.shape)
    &&& call_ensures(V::d2_variance, (&variance, mu), j.v2)
    &&& call_ensures(K::d3_link_dmu, (&link, mu), j.g3)
}

/// `a1` is the weight derivative of one observation for some answers of the
/// family.
pub open spec fn a1_from<F: Arithmetic, K: Link, V: VarianceFn>(
    link: K,
    variance: V,
    y: Double,
    mu: Double,
    w: Double,
    a1: Double,
) -> bool {
    exists|j: RowJet| #[trigger]
        jet_read::<K, V>(link, variance, mu, j) && a1 == a1_row_of::<F>(y, mu, w, j)
}

/// The log determinant in the score: that of the observed curvature where it can
/// be had, else the Newton one where the loss uses the observed information and
/// it can be had, else that of the fit's own factor.
pub open spec fn score_log_det_of<F: Arithmetic, L: Loss, K: Link, V: VarianceFn, D: DenseBackend, S: LinearSolver>(
    on: bool,
    family: Family<L, K, V>,
    y: Vec<Double>,
    eta: Vec<Double>,
    mu: Seq<Double>,
    prior: Vec<Double>,
    x: Matrix,
    s_total: Seq<Seq<Double>>,
    fit: GaussianInnerFit<S>,
    r: Double,
    outcome: Option<bool>,
) -> bool {
    exists|observed: Option<Double>| #[trigger]
        observed_log_det_of::<F, L, D>(
            on,
            family.loss,
            y,
            eta,
            prior,
            x,
            s_total,
            observed,
            outcome,
        ) && match observed {
            Some(v) => r == v,
            None => exists|newton: bool| #[trigger]
                call_ensures(L::use_newton_irls, (&family.loss,), newton) && if newton {
                    exists|nl: Option<Double>| #[trigger]
                        newton_log_det_of::<F, K, V, D>(
                            family.link,
                            family.variance,
                            y@,
                            mu,
                            prior@,
                            x,
                            s_total,
                            nl,
                        ) && match nl {
                            Some(v) => r == v,
                            None => call_ensures(S::logdet, (&fit.a_factor,), r),
                        }
                } else {
                    call_ensures(S::logdet, (&fit.a_factor,), r)
                },
        }
}

/// The log determinant in the score.
pub fn score_log_det_h<F: Arithmetic, L: Loss, K: Link, V: VarianceFn, D: DenseBackend, S: LinearSolver>(
    on: bool,
    family: &Family<L, K, V>,
    y: &Vec<Double>,
    eta: &Vec<Double>,
    mu: &Vec<Double>,
    prior: &Vec<Double>,
    x: &Matrix,
    s_total: &Matrix,
    fit: &GaussianInnerFit<S>,
    counts: &mut ObservedPdCounts,
) -> (r: Double)
    requires
        lawful::<F>(),
        mu@.len() == y@.len(),
        prior@.len() == y@.len(),
        x.shape(y@.len(), x.cols as nat),
        s_total.square(x.cols as nat),
    ensures
        exists|o: Option<bool>| #[trigger]
            score_log_det_of::<F, L, K, V, D, S>(
                on,
                *family,
                *y,
                *eta,
                mu@,
                *prior,
                *x,
                s_total@,
                *fit,
                r,
                o,
            ) && *final(counts) == with_outcome(*old(counts), o),
{
    let observed: Option<Double> = observed_log_det_h::<F, L, D>(
        on,
        &family.loss,
        y,
        eta,
        prior,
        x,
        s_total,
        counts,
    );
    let ghost o = choose|o: Option<bool>| #[trigger]
        observed_log_det_of::<F, L, D>(
            on,
            family.loss,
            *y,
            *eta,
            *prior,
            *x,
            s_total@,
            observed,
            o,
        ) && *counts == with_outcome(*old(counts), o);
    let r: Double = match observed {
        Some(v) => v,
        None => {
            let newton: bool = family.loss.use_newton_irls();
            if newton {
                let nl: Option<Double> = lazy_newton_log_det_h::<F, K, V, D>(
                    &family.link,
                    &family.variance,
                    y,
                    mu,
                    prior,
                    x,
                    s_total,
                );
                match nl {
                    Some(v) => v,
                    None => fit.log_det_a(),
                }
            } else {
                fit.log_det_a()
            }
        },
    };
    assert(score_log_det_of::<F, L, K, V, D, S>(
        on,
        *family,
        *y,
        *eta,
        mu@,
        *prior,
        *x,
        s_total@,
        *fit,
        r,
        o,
    ));
    r
}

/// The inputs of the weight-chain gradient term at Newton weights `w`.
pub open spec fn tk_inputs_at<F: Arithmetic, K: Link, V: VarianceFn, D: DenseBackend>(
    link: K,
    variance: V,
    y: Seq<Double>,
    mu: Seq<Double>,
    beta: Seq<Double>,
    x: Seq<Seq<Double>>,
    s_list: Seq<Matrix>,
    s_total: Seq<Seq<Double>>,
    rho: Seq<Double>,
    w: Seq<Double>,
    t: TkKKTInputs,
) -> bool {
    &&& t.a_newton_inv.square(beta.len())
    &&& inverse_known::<F, D>(score_curvature_of::<F>(x, beta.len(), w, s_total), t.a_newton_inv)
    &&& t.a1@.len() == y.len()
    &&& forall|i: int|
        0 <= i < y.len() ==> a1_from::<F, K, V>(link, variance, y[i], mu[i], w[i], #[trigger] t.a1@[i])
    &&& t.lev_uw@ == leverage_of::<F>(x, beta.len(), t.a_newton_inv@)
    &&& t.eta1_per_term@.len() == s_list.len()
    &&& t.tr_a_newton_inv_s_per_term@.len() == s_list.len()
    &&& forall|k: int|
        0 <= k < s_list.len() ==> (#[trigger] t.eta1_per_term@[k])@ == eta1_of::<F>(
            x,
            t.a_newton_inv@,
            s_list[k]@,
            beta,
            rho[k],
        )
    &&& forall|k: int|
        0 <= k < s_list.len() ==> #[trigger] t.tr_a_newton_inv_s_per_term@[k] == trace_product_of::<F>(
            t.a_newton_inv@,
            s_list[k]@,
        )
    &&& t.working_weights_sign@ == ones_of(y.len())
}

/// `n` ones.
pub open spec fn ones_of(n: nat) -> Seq<Double> {
    Seq::new(n, |i: int| one())
}

/// The inputs of the weight-chain gradient term, as family and backend answer;
/// `None` where a Newton weight is not finite or the curvature has no inverse.
pub open spec fn tk_inputs_of<F: Arithmetic, K: Link, V: VarianceFn, D: DenseBackend>(
    link: K,
    variance: V,
    y: Seq<Double>,
    mu: Seq<Double>,
    beta: Seq<Double>,
    x: Seq<Seq<Double>>,
    s_list: Seq<Matrix>,
    s_total: Seq<Seq<Double>>,
    rho: Seq<Double>,
    r: Option<TkKKTInputs>,
) -> bool {
    exists|w: Seq<Double>| #[trigger]
        newton_weights_of::<F, K, V>(link, variance, y, mu, ones_of(y.len()), w) && match r {
            Some(t) => all_finite_seq(w) && tk_inputs_at::<F, K, V, D>(
                link,
                variance,
                y,
                mu,
                beta,
                x,
                s_list,
                s_total,
                rho,
                w,
                t,
            ),
            None => !all_finite_seq(w) || inverse_fails::<D>(
                score_curvature_of::<F>(x, beta.len(), w, s_total),
            ),
        }
}

/// The inputs of the weight-chain gradient term at the converged coefficients:
/// the Newton curvature, its inverse, and per term the derivative of the linear
/// predictor and the trace. `None` where a weight is not finite or the curvature
/// has no usable inverse.
pub fn lazy_tk_kkt_inputs<F: Arithmetic, K: Link, V: VarianceFn, D: DenseBackend>(
    link: &K,
    variance: &V,
    y: &Vec<Double>,
    mu: &Vec<Double>,
    beta: &Vec<Double>,
    x: &Matrix,
    s_list: &Vec<Matrix>,
    s_total: &Matrix,
    rho: &Vec<Double>,
) -> (r: Option<TkKKTInputs>)
    requires
        lawful::<F>(),
        mu@.len() == y@.len(),
        x.shape(y@.len(), beta@.len()),
        s_total.square(beta@.len()),
        penalties_fit(s_list@, beta@.len()),
        rho@.len() == s_list@.len(),
    ensures
        tk_inputs_of::<F, K, V, D>(
            *link,
            *variance,
            y@,
            mu@,
            beta@,
            x@,
            s_list@,
            s_total@,
            rho@,
            r,
        ),
{
    let n: usize = y.len();
    let ones: Vec<Double> = prior_or_ones(None, n);
    assert(ones@ =~= ones_of(n as nat));
    let w: Vec<Double> = newton_score_weights::<F, K, V>(link, variance, y, mu, &ones);
    assert(newton_weights_of::<F, K, V>(*link, *variance, y@, mu@, ones_of(y@.len()), w@));
    if !all_finite(&w) {
        return None;
    }
    let a: Matrix = score_curvature::<F>(x, &w, s_total);
    let a_inv: Matrix = match symmetric_inverse::<F, D>(&a) {
        Some(m) => m,
        None => return None,
    };
    let mut a1: Vec<Double> = Vec::new();
    for i in 0..n
        invariant
            lawful::<F>(),
            n == y@.len(),
            mu@.len() == y@.len(),
            w@.len() == y@.len(),
            a1@.len() == i,
            forall|k: int|
                0 <= k < i ==> a1_from::<F, K, V>(
                    *link,
                    *variance,
                    y@[k],
                    mu@[k],
                    w@[k],
                    #[trigger] a1@[k],
                ),
    {
        let shape: RowShape = read_row::<K, V>(link, variance, mu[i]);
        let j: RowJet = RowJet {
            shape,
            v2: variance.d2_variance(mu[i]),
            g3: link.d3_link_dmu(mu[i]),
        };
        let v: Double = a1_row::<F>(y[i], mu[i], w[i], j);
        assert(jet_read::<K, V>(*link, *variance, mu@[i as int], j));
        assert(a1_from::<F, K, V>(*link, *variance, y@[i as int], mu@[i as int], w@[i as int], v));
        a1.push(v);
    }
    let lev_uw: Vec<Double> = leverage::<F>(x, &a_inv);
    let mut eta1_per_term: Vec<Vec<Double>> = Vec::new();
    let mut tr: Vec<Double> = Vec::new();
    for k in 0..s_list.len()
        invariant
            lawful::<F>(),
            x.shape(y@.len(), beta@.len()),
            a_inv.square(beta@.len()),
            penalties_fit(s_list@, beta@.len()),
            rho@.len() == s_list@.len(),
            eta1_per_term@.len() == k,
            tr@.len() == k,
            forall|m: int|
                0 <= m < k ==> (#[trigger] eta1_per_term@[m])@ == eta1_of::<F>(
                    x@,
                    a_inv@,
                    s_list@[m]@,
                    beta@,
                    rho@[m],
                ),
            forall|m: int|
                0 <= m < k ==> #[trigger] tr@[m] == trace_product_of::<F>(a_inv@, s_list@[m]@),
    {
        assert(s_list@[k as int].square(beta@.len()));
        eta1_per_term.push(eta1::<F>(x, &a_inv, &s_list[k], beta, rho[k]));
        tr.push(trace_product::<F>(&a_inv, &s_list[k]));
    }
    Some(
        TkKKTInputs {
            a1,
            lev_uw,
            eta1_per_term,
            tr_a_newton_inv_s_per_term: tr,
            a_newton_inv: a_inv,
            working_weights_sign: ones,
        },
    )
}

} // verus!
