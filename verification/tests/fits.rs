use gamrs::arith::Arithmetic;
use gamrs::double::Double;
use gamrs::error::GamrsError;
use gamrs::inner::armijo::{ArmijoElfInner, ArmijoElfOpts, ElfLoss, ElfParams, ElfParts};
use gamrs::inner::closed_form::GaussianClosedFormInner;
use gamrs::inner::gam_fit5::{category, OcatInner, OcatLoss};
use gamrs::inner::linalg::{factor_and_solve_with_ridge, CholeskySolver, LinearSolver, LuSolver};
use gamrs::inner::pirls::curvature::{observed_log_det_h_enabled, observed_pd_counts, reset_observed_pd_counts, score_log_det_h_applies, ObservedPdCounts};
use gamrs::inner::pirls::{PirlsInner, PirlsOpts};
use gamrs::inner::solver::InnerSolver;
use gamrs::inner::GaussianInnerFit;
use gamrs::matrix::Matrix;
use gamrs::outer::fellner_schall::{fellner_schall_minimize, FellnerSchallOpts};
use gamrs::outer::minimize::{ScoreDerivatives, ScoreMemory};
use gamrs::outer::step::Spectrum;
use gamrs::outer::{NewtonOpts, NewtonWithHalving};
use gamrs::score::envelope::{EnvelopeScore, GaussianClosedFormScore};
use gamrs::score::profile::{FixedAtOneProfile, MgcvTwoSigmaProfile, Profile};
use gamrs::score::shape_aware::builder::{InnerData, OcatInnerBuilder, PirlsInnerBuilder};
use gamrs::score::shape_aware::level2::{Level1ShapeDerivs, Level2ShapeDerivs};
use gamrs::score::shape_aware::score::{
    ShapeAwareEnvelopeScore, ShapeAwareOcatScore, ShapeAwarePirlsScore,
};
use gamrs::special::{digamma, log_gamma, trigamma};
use gamrs::stats::FitStats;
use gamrs::traits::{DenseBackend, Family, Link, Loss, ShapeLoss, VarianceFn};

struct Machine;

fn d(x: f64) -> Double {
    if x.is_nan() {
        Double::from_bits(f64::NAN.to_bits())
    } else {
        Double::from_bits(x.to_bits())
    }
}

fn f(x: Double) -> f64 {
    f64::from_bits(x.bits)
}

impl Arithmetic for Machine {
    fn plus(a: Double, b: Double) -> Double {
        d(f(a) + f(b))
    }
    fn minus(a: Double, b: Double) -> Double {
        d(f(a) - f(b))
    }
    fn times(a: Double, b: Double) -> Double {
        d(f(a) * f(b))
    }
    fn over(a: Double, b: Double) -> Double {
        d(f(a) / f(b))
    }
    fn power(a: Double, b: Double) -> Double {
        d(f(a).powf(f(b)))
    }
    fn root(a: Double) -> Double {
        d(f(a).sqrt())
    }
    fn exp(a: Double) -> Double {
        d(f(a).exp())
    }
    fn ln(a: Double) -> Double {
        d(f(a).ln())
    }
    fn sin(a: Double) -> Double {
        d(f(a).sin())
    }
    fn count(n: usize) -> Double {
        d(n as f64)
    }
    fn whole(n: i64) -> Double {
        d(n as f64)
    }
    fn natural(n: u64) -> Double {
        d(n as f64)
    }
    fn floor_int(a: Double) -> i64 {
        f(a).floor() as i64
    }
    fn round_int(a: Double) -> i64 {
        f(a).round() as i64
    }
    fn shown(a: Double) -> String {
        format!("{}", f(a))
    }
}

fn vector(v: &[f64]) -> Vec<Double> {
    v.iter().map(|&x| d(x)).collect()
}

fn matrix(rows: &[&[f64]]) -> Matrix {
    Matrix {
        rows: rows.iter().map(|r| vector(r)).collect(),
        cols: if rows.is_empty() { 0 } else { rows[0].len() },
    }
}

fn plain(m: &Matrix) -> Vec<Vec<f64>> {
    m.rows.iter().map(|r| r.iter().map(|&x| f(x)).collect()).collect()
}

/// Eigenvalues and eigenvectors by Jacobi rotations.
fn jacobi(a: &Matrix) -> (Vec<f64>, Vec<Vec<f64>>) {
    let n = a.rows.len();
    let mut m = plain(a);
    let mut v = vec![vec![0.0; n]; n];
    for i in 0..n {
        v[i][i] = 1.0;
    }
    for _ in 0..100 {
        for p in 0..n {
            for q in p + 1..n {
                if m[p][q].abs() < 1e-300 {
                    continue;
                }
                let theta = (m[q][q] - m[p][p]) / (2.0 * m[p][q]);
                let t = theta.signum() / (theta.abs() + (theta * theta + 1.0).sqrt());
                let t = if theta == 0.0 { 1.0 } else { t };
                let c = 1.0 / (t * t + 1.0).sqrt();
                let s = t * c;
                for k in 0..n {
                    let (x, y) = (m[k][p], m[k][q]);
                    m[k][p] = c * x - s * y;
                    m[k][q] = s * x + c * y;
                }
                for k in 0..n {
                    let (x, y) = (m[p][k], m[q][k]);
                    m[p][k] = c * x - s * y;
                    m[q][k] = s * x + c * y;
                }
                for k in 0..n {
                    let (x, y) = (v[k][p], v[k][q]);
                    v[k][p] = c * x - s * y;
                    v[k][q] = s * x + c * y;
                }
            }
        }
    }
    let mut order: Vec<usize> = (0..n).collect();
    order.sort_by(|&i, &j| m[i][i].partial_cmp(&m[j][j]).unwrap());
    let eigs = order.iter().map(|&i| m[i][i]).collect();
    let vecs = (0..n).map(|r| order.iter().map(|&i| v[r][i]).collect()).collect();
    (eigs, vecs)
}

struct Dense;

impl DenseBackend for Dense {
    fn cholesky(a: &Matrix) -> Result<Matrix, String> {
        let n = a.rows.len();
        let m = plain(a);
        let mut l = vec![vec![0.0; n]; n];
        for i in 0..n {
            for j in 0..=i {
                let mut s = m[i][j];
                for k in 0..j {
                    s -= l[i][k] * l[j][k];
                }
                if i == j {
                    if s <= 0.0 {
                        return Err("not positive definite".to_string());
                    }
                    l[i][i] = s.sqrt();
                } else {
                    l[i][j] = s / l[j][j];
                }
            }
        }
        Ok(Matrix { rows: l.iter().map(|r| vector(r)).collect(), cols: n })
    }
    fn eigh(a: &Matrix) -> Option<Spectrum> {
        let (eigs, vecs) = jacobi(a);
        Some(Spectrum {
            eigs: vector(&eigs),
            vecs: Matrix { rows: vecs.iter().map(|r| vector(r)).collect(), cols: a.cols },
        })
    }
    fn solve(a: &Matrix, b: &Vec<Double>) -> Option<Vec<Double>> {
        let n = b.len();
        let mut m = plain(a);
        let mut x: Vec<f64> = b.iter().map(|&v| f(v)).collect();
        for i in 0..n {
            let mut p = i;
            for r in i..n {
                if m[r][i].abs() > m[p][i].abs() {
                    p = r;
                }
            }
            if m[p][i] == 0.0 {
                return None;
            }
            m.swap(i, p);
            x.swap(i, p);
            for r in i + 1..n {
                let q = m[r][i] / m[i][i];
                for c in i..n {
                    m[r][c] -= q * m[i][c];
                }
                x[r] -= q * x[i];
            }
        }
        for i in (0..n).rev() {
            for c in i + 1..n {
                x[i] -= m[i][c] * x[c];
            }
            x[i] /= m[i][i];
        }
        Some(vector(&x))
    }
}

/// Solves with the Cholesky factor.
struct Chol;

impl LinearSolver for Chol {
    type Factorization = Matrix;
    fn factorize(a: &Matrix) -> Result<Matrix, GamrsError> {
        Dense::cholesky(a).map_err(|e| GamrsError::SingularSystem(format!("Cholesky failed: {e}")))
    }
    fn solve(fact: &Matrix, b: &Vec<Double>) -> Vec<Double> {
        CholeskySolver::solve::<Machine>(fact, b)
    }
    fn logdet(fact: &Matrix) -> Double {
        CholeskySolver::logdet::<Machine>(fact)
    }
    fn trace_a_inv(fact: &Matrix, m: &Matrix) -> Double {
        CholeskySolver::trace_a_inv::<Machine>(fact, m)
    }
    fn invert(fact: &Matrix) -> Matrix {
        CholeskySolver::invert::<Machine>(fact)
    }
}

fn no_counts() -> ObservedPdCounts {
    ObservedPdCounts::new()
}

fn shown(v: &Vec<Double>) -> Vec<f64> {
    v.iter().map(|&x| f(x)).collect()
}

fn of_rows(rows: &[Vec<f64>], cols: usize) -> Matrix {
    Matrix { rows: rows.iter().map(|r| vector(r)).collect(), cols }
}

fn dot(a: &[f64], b: &[f64]) -> f64 {
    a.iter().zip(b).map(|(x, y)| x * y).sum()
}

fn largest(v: &[f64]) -> f64 {
    v.iter().fold(0.0, |a: f64, x| a.max(x.abs()))
}

fn close(a: f64, b: f64, rel: f64) -> bool {
    (a - b).abs() <= rel * (1.0 + b.abs())
}

/// A cubic regression spline with knots at the quantiles of `x`: its design
/// matrix and its penalty.
fn spline(x: &[f64], k: usize) -> (Matrix, Matrix) {
    let mut sorted = x.to_vec();
    sorted.sort_by(|a, b| a.partial_cmp(b).unwrap());
    let knots: Vec<f64> = (0..k)
        .map(|j| {
            let t = (x.len() - 1) as f64 * j as f64 / (k - 1) as f64;
            let i = (t.floor() as usize).min(x.len() - 2);
            sorted[i] + (t - i as f64) * (sorted[i + 1] - sorted[i])
        })
        .collect();
    let h: Vec<f64> = (0..k - 1).map(|j| knots[j + 1] - knots[j]).collect();
    let mut b = vec![vec![0.0; k - 2]; k - 2];
    let mut m = vec![vec![0.0; k]; k - 2];
    for i in 0..k - 2 {
        m[i][i] = 1.0 / h[i];
        m[i][i + 1] = -1.0 / h[i] - 1.0 / h[i + 1];
        m[i][i + 2] = 1.0 / h[i + 1];
        b[i][i] = (h[i] + h[i + 1]) / 3.0;
        if i + 1 < k - 2 {
            b[i][i + 1] = h[i + 1] / 6.0;
            b[i + 1][i] = h[i + 1] / 6.0;
        }
    }
    let bm = of_rows(&b, k - 2);
    let mut curve = vec![vec![0.0; k]; k];
    for c in 0..k {
        let rhs: Vec<f64> = (0..k - 2).map(|i| m[i][c]).collect();
        let col = shown(&Dense::solve(&bm, &vector(&rhs)).unwrap());
        for i in 0..k - 2 {
            curve[i + 1][c] = col[i];
        }
    }
    let mut s = vec![vec![0.0; k]; k];
    for i in 0..k {
        for j in 0..k {
            s[i][j] = (0..k - 2).map(|r| m[r][i] * curve[r + 1][j]).sum();
        }
    }
    let rows: Vec<Vec<f64>> = x
        .iter()
        .map(|&t| {
            let mut j = 0;
            while j < k - 2 && t > knots[j + 1] {
                j += 1;
            }
            let (lo, hi) = (knots[j + 1] - t, t - knots[j]);
            let cl = (lo * lo * lo / h[j] - h[j] * lo) / 6.0;
            let ch = (hi * hi * hi / h[j] - h[j] * hi) / 6.0;
            (0..k)
                .map(|c| {
                    let mut v = cl * curve[j][c] + ch * curve[j + 1][c];
                    if c == j {
                        v += lo / h[j];
                    }
                    if c == j + 1 {
                        v += hi / h[j];
                    }
                    v
                })
                .collect()
        })
        .collect();
    (of_rows(&rows, k), of_rows(&s, k))
}

fn copied(m: &Matrix) -> Matrix {
    m.copy()
}

fn grid_points(n: usize) -> Vec<f64> {
    (0..n).map(|i| i as f64 / n as f64).collect()
}

/// A number in `[0, 1)` that depends on `i` alone.
fn noise(i: usize) -> f64 {
    let r = (i as f64 * 12.9898 + 78.233).sin() * 43758.5453;
    r - r.floor()
}

#[derive(Clone)]
struct Identity;

impl Link for Identity {
    fn link(&self, mu: Double) -> Double {
        mu
    }
    fn inverse_link(&self, eta: Double) -> Double {
        eta
    }
    fn d_link_dmu(&self, _mu: Double) -> Double {
        d(1.0)
    }
    fn d2_link_dmu(&self, _mu: Double) -> Double {
        d(0.0)
    }
    fn d3_link_dmu(&self, _mu: Double) -> Double {
        d(0.0)
    }
}

#[derive(Clone)]
struct LogLink;

impl Link for LogLink {
    fn link(&self, mu: Double) -> Double {
        d(f(mu).ln())
    }
    fn inverse_link(&self, eta: Double) -> Double {
        d(f(eta).exp())
    }
    fn d_link_dmu(&self, mu: Double) -> Double {
        d(1.0 / f(mu))
    }
    fn d2_link_dmu(&self, mu: Double) -> Double {
        d(-1.0 / (f(mu) * f(mu)))
    }
    fn d3_link_dmu(&self, mu: Double) -> Double {
        d(2.0 / f(mu).powi(3))
    }
}

#[derive(Clone)]
struct ConstVariance;

impl VarianceFn for ConstVariance {
    fn variance(&self, _mu: Double) -> Double {
        d(1.0)
    }
    fn d_variance(&self, _mu: Double) -> Double {
        d(0.0)
    }
    fn d2_variance(&self, _mu: Double) -> Double {
        d(0.0)
    }
}

#[derive(Clone)]
struct MeanVariance;

impl VarianceFn for MeanVariance {
    fn variance(&self, mu: Double) -> Double {
        mu
    }
    fn d_variance(&self, _mu: Double) -> Double {
        d(1.0)
    }
    fn d2_variance(&self, _mu: Double) -> Double {
        d(0.0)
    }
}

#[derive(Clone)]
struct Normal;

impl Loss for Normal {
    fn deviance_per_obs(&self, y: Double, mu: Double) -> Double {
        d((f(y) - f(mu)).powi(2))
    }
    fn initial_mu(&self, y: &Vec<Double>) -> Vec<Double> {
        y.clone()
    }
    fn use_newton_irls(&self) -> bool {
        false
    }
    fn irls_observed_pair(
        &self,
        _y: &Vec<Double>,
        _mu: &Vec<Double>,
        _eta: &Vec<Double>,
        _prior_w: &Vec<Double>,
    ) -> Option<(Vec<Double>, Vec<Double>)> {
        None
    }
    fn saturated_log_lik(&self, _y: Double, sigma2: Double) -> Double {
        d(-0.5 * (2.0 * std::f64::consts::PI * f(sigma2)).ln())
    }
    fn profile_score_sigma2(&self, dp: Double, _n: usize, n_minus_mp: Double, _init: Double) -> Double {
        d(f(dp) / f(n_minus_mp))
    }
    fn profile_sigma2_is_closed_form(&self) -> bool {
        true
    }
    fn fixed_dispersion(&self) -> Option<Double> {
        None
    }
    fn allows_no_refresh(&self) -> bool {
        true
    }
    fn skip_w_chain_in_hessian(&self) -> bool {
        false
    }
    fn observed_curvature_weights(
        &self,
        _y: &Vec<Double>,
        _eta: &Vec<Double>,
        _prior_w: &Vec<Double>,
    ) -> Option<Vec<Double>> {
        None
    }
}

/// Poisson counts; `start` is how many starting means are handed out.
#[derive(Clone)]
struct Counts {
    start: Option<usize>,
}

impl Loss for Counts {
    fn deviance_per_obs(&self, y: Double, mu: Double) -> Double {
        let (y, mu) = (f(y), f(mu));
        let part = if y > 0.0 { y * (y / mu).ln() } else { 0.0 };
        d(2.0 * (part - (y - mu)))
    }
    fn initial_mu(&self, y: &Vec<Double>) -> Vec<Double> {
        let n = self.start.unwrap_or(y.len());
        (0..n).map(|i| d(f(y[i]) + 0.1)).collect()
    }
    fn use_newton_irls(&self) -> bool {
        false
    }
    fn irls_observed_pair(
        &self,
        _y: &Vec<Double>,
        _mu: &Vec<Double>,
        _eta: &Vec<Double>,
        _prior_w: &Vec<Double>,
    ) -> Option<(Vec<Double>, Vec<Double>)> {
        None
    }
    fn saturated_log_lik(&self, y: Double, _sigma2: Double) -> Double {
        let y = f(y);
        let fact: f64 = (1..=(y as usize)).map(|i| (i as f64).ln()).sum();
        d(if y > 0.0 { y * y.ln() - y - fact } else { 0.0 })
    }
    fn profile_score_sigma2(&self, _dp: Double, _n: usize, _m: Double, _init: Double) -> Double {
        d(1.0)
    }
    fn profile_sigma2_is_closed_form(&self) -> bool {
        false
    }
    fn fixed_dispersion(&self) -> Option<Double> {
        Some(d(1.0))
    }
    fn allows_no_refresh(&self) -> bool {
        true
    }
    fn skip_w_chain_in_hessian(&self) -> bool {
        false
    }
    fn observed_curvature_weights(
        &self,
        _y: &Vec<Double>,
        _eta: &Vec<Double>,
        _prior_w: &Vec<Double>,
    ) -> Option<Vec<Double>> {
        None
    }
}

#[test]
fn what_is_read_off_a_cholesky_factor() {
    let a = matrix(&[&[4.0, 2.0], &[2.0, 5.0]]);
    let l = Dense::cholesky(&a).unwrap();
    assert!(close(f(CholeskySolver::logdet::<Machine>(&l)), 16.0_f64.ln(), 1e-12));
    let x = shown(&CholeskySolver::solve::<Machine>(&l, &vector(&[8.0, 12.0])));
    assert!(close(x[0], 1.0, 1e-12) && close(x[1], 2.0, 1e-12));
    let inv = plain(&CholeskySolver::invert::<Machine>(&l));
    assert!(close(inv[0][0], 5.0 / 16.0, 1e-12) && close(inv[0][1], -2.0 / 16.0, 1e-12));
    assert!(close(inv[1][0], -2.0 / 16.0, 1e-12) && close(inv[1][1], 4.0 / 16.0, 1e-12));
    let m = matrix(&[&[1.0, 2.0], &[3.0, 4.0]]);
    let tr = f(CholeskySolver::trace_a_inv::<Machine>(&l, &m));
    assert!(close(tr, (5.0 - 6.0 - 4.0 + 16.0) / 16.0, 1e-12), "{tr}");
}

#[test]
fn what_is_read_off_an_lu_factor() {
    assert_eq!(f(LuSolver::logdet(Some((d(-1.0), d(2.5))))), 2.5);
    assert!(LuSolver::logdet(None).is_nan());
    let inv = LuSolver::invert(2, &vec![vector(&[1.0, 2.0]), vector(&[3.0, 4.0])]);
    assert_eq!(plain(&inv), vec![vec![1.0, 3.0], vec![2.0, 4.0]]);
}

#[test]
fn ridge_is_relative_and_a_singular_system_says_so() {
    let a = matrix(&[&[1e6, 0.0], &[0.0, 1.0]]);
    let (fact, x) = factor_and_solve_with_ridge::<Machine, Chol>(&a, &vector(&[1e6, 1.0])).unwrap();
    assert_eq!(plain(&fact), vec![vec![1e3, 0.0], vec![0.0, 1.0]]);
    assert!(close(f(x[0]), 1.0, 1e-11) && close(f(x[1]), 1.0 / (1.0 + 1e-6), 1e-11));
    let bad = matrix(&[&[1.0, 1.0], &[1.0, 1.0]]);
    match factor_and_solve_with_ridge::<Machine, Chol>(&bad, &vector(&[1.0, 1.0])) {
        Err(GamrsError::SingularSystem(m)) => assert!(m.starts_with("Cholesky failed")),
        _ => panic!("a singular matrix has no factor"),
    }
}

fn normal_problem() -> (Matrix, Vec<f64>, Matrix) {
    let x = grid_points(60);
    let y: Vec<f64> = x
        .iter()
        .enumerate()
        .map(|(i, &t)| (2.0 * std::f64::consts::PI * t).sin() + 0.3 * (noise(i) - 0.5))
        .collect();
    let (design, s) = spline(&x, 8);
    (design, y, s)
}

#[test]
fn closed_form_fit_solves_the_normal_equations() {
    let (design, y, s) = normal_problem();
    let lambda: f64 = 0.7;
    let inner = GaussianClosedFormInner::new::<Machine>(
        copied(&design),
        vector(&y),
        None,
        vec![copied(&s)],
    );
    let fit = inner.fit::<Machine, Chol>(&vector(&[lambda.ln()])).unwrap();
    let beta = shown(&fit.beta);
    let mu = shown(&fit.mu);
    let (rows, pen) = (plain(&design), plain(&s));
    for c in 0..8 {
        let score: f64 = (0..60).map(|i| rows[i][c] * (y[i] - mu[i])).sum();
        let want = lambda * dot(&pen[c], &beta);
        assert!((score - want).abs() < 1e-8, "{score} {want}");
    }
    let rss: f64 = (0..60).map(|i| (y[i] - mu[i]).powi(2)).sum();
    assert!(close(f(fit.rss), rss, 1e-12));
    assert!(fit.converged);
    assert_eq!((fit.n, fit.p), (60, 8));
}

fn normal_score() -> GaussianClosedFormScore<Normal, Dense, Chol> {
    let (design, y, s) = normal_problem();
    GaussianClosedFormScore::new::<Machine>(
        design,
        vector(&y),
        vec![s],
        None,
        Normal,
        vec![6],
        2,
        vector(&[0.0]),
    )
}

/// The score's value at a point.
fn normal_value(score: &GaussianClosedFormScore<Normal, Dense, Chol>, rho: f64) -> f64 {
    f(score.compute_value_grad::<Machine>(&vector(&[rho])).unwrap().0)
}

#[test]
fn gradient_and_hessian_of_a_normal_score_are_its_derivatives() {
    let score = normal_score();
    for rho in [-2.0, 0.0, 1.5] {
        let theta = vector(&[rho]);
        let (_, g) = score.compute_value_grad::<Machine>(&theta).unwrap();
        let h = 1e-4;
        let fd = (normal_value(&score, rho + h) - normal_value(&score, rho - h)) / (2.0 * h);
        assert!(close(f(g[0]), fd, 1e-6), "rho={rho}: {} {fd}", f(g[0]));

        let fit = score.inner.fit::<Machine, Chol>(&theta).unwrap();
        let (_, _, hin) = score.compute_value_grad_from_fit::<Machine>(&theta, &fit).unwrap();
        let analytic = plain(&score.hess_analytic::<Machine>(&fit, &hin).unwrap());
        let by_differences = plain(&score.hess_via_fd::<Machine>(&theta).unwrap());
        assert!(
            (analytic[0][0] - by_differences[0][0]).abs() <= 1e-6 * by_differences[0][0].abs(),
            "rho={rho}: {analytic:?} {by_differences:?}"
        );
    }
}

#[test]
fn search_over_a_normal_score_ends_at_a_stationary_point() {
    let score = normal_score();
    let memory = ScoreMemory { accepted: None, stats: Some(FitStats::new()), observed: no_counts() };
    let (r, after) = NewtonWithHalving::default().minimize::<Machine, Dense, _>(
        &score,
        memory,
        vector(&[0.0]),
    );
    let fit = r.unwrap();
    assert!(fit.converged);
    let at = f(fit.theta[0]);
    let (_, g) = score.compute_value_grad::<Machine>(&fit.theta).unwrap();
    assert!(f(g[0]).abs() < 1e-4, "{}", f(g[0]));
    for step in [-0.1, 0.1] {
        assert!(normal_value(&score, at + step) > f(fit.value));
    }
    let n = after.stats.unwrap().snapshot();
    assert!(n.outer_iterations > 0 && n.inner_pirls_calls > 0);
}

fn counts_problem() -> (Matrix, Vec<f64>, Matrix) {
    let x = grid_points(80);
    let y: Vec<f64> = x
        .iter()
        .enumerate()
        .map(|(i, &t)| {
            let mean = (1.0 + (2.0 * std::f64::consts::PI * t).sin()).exp();
            (mean + 2.0 * (noise(i) - 0.5) * mean.sqrt()).max(0.0).round()
        })
        .collect();
    let (design, s) = spline(&x, 8);
    (design, y, s)
}

fn counts_inner(start: Option<usize>) -> PirlsInner<Counts, LogLink, MeanVariance> {
    let (design, y, s) = counts_problem();
    PirlsInner {
        x_design: design,
        y: vector(&y),
        prior_weights: None,
        s_list: vec![s],
        family: Family { loss: Counts { start }, link: LogLink, variance: MeanVariance },
        opts: PirlsOpts::default(),
        observed_on: true,
    }
}

#[test]
fn reweighted_fit_of_counts_is_stationary() {
    let inner = counts_inner(None);
    let lambda: f64 = 0.3;
    let fit = inner.fit::<Machine, Chol>(&vector(&[lambda.ln()])).unwrap();
    assert!(fit.converged);
    let (rows, pen) = (plain(&inner.x_design), plain(&inner.s_list[0]));
    let (y, mu, beta) = (shown(&inner.y), shown(&fit.mu), shown(&fit.beta));
    for c in 0..8 {
        let score: f64 = (0..80).map(|i| rows[i][c] * (y[i] - mu[i])).sum();
        let want = lambda * dot(&pen[c], &beta);
        assert!((score - want).abs() < 1e-4, "{score} {want}");
    }
    let warm = inner.fit_warm::<Machine, Chol>(&vector(&[lambda.ln()]), Some(&fit.beta)).unwrap();
    assert!(warm.iterations <= fit.iterations);
    assert!(largest(
        &shown(&warm.beta).iter().zip(&beta).map(|(a, b)| a - b).collect::<Vec<f64>>()
    ) < 1e-6);
    let single =
        inner.fit_single_irls::<Machine, Chol>(&vector(&[lambda.ln()]), Some(&fit.beta)).unwrap();
    assert!(close(f(single.deviance), f(fit.deviance), 1e-8));
}

#[test]
fn a_starting_mean_of_the_wrong_length_is_refused() {
    match counts_inner(Some(3)).fit::<Machine, Chol>(&vector(&[0.0])) {
        Err(e) => assert_eq!(e.message().unwrap(), "starting mean has the wrong length"),
        Ok(_) => panic!("three means for eighty observations"),
    }
}

type CountsScore =
    EnvelopeScore<Counts, PirlsInner<Counts, LogLink, MeanVariance>, FixedAtOneProfile, Dense, Chol>;

fn counts_score() -> CountsScore {
    let (_, y, s) = counts_problem();
    EnvelopeScore::with_inner(
        counts_inner(None),
        Counts { start: None },
        FixedAtOneProfile,
        vector(&y),
        vec![s],
        vec![6],
        2,
        vector(&[0.0]),
    )
}

/// The analytic Hessian against differences of the gradient, at a point and off
/// it; relative errors have a denominator of at least 1.
fn assert_hessians_agree<L, I, P>(score: &EnvelopeScore<L, I, P, Dense, Chol>, at: &[f64], bar: f64)
where
    L: Loss,
    I: InnerSolver<Machine, Dense, Chol>,
    P: Profile<Machine, L>,
{
    let off: Vec<f64> = at.iter().enumerate().map(|(i, t)| t + 0.37 + 0.11 * i as f64).collect();
    for point in [at.to_vec(), off] {
        let theta = vector(&point);
        let fit = score.inner.fit(&theta).unwrap();
        let (_, _, hin) = score.compute_value_grad_from_fit::<Machine>(&theta, &fit).unwrap();
        let analytic = plain(&score.hess_analytic::<Machine>(&fit, &hin).unwrap());
        let by_differences = plain(&score.hess_via_fd::<Machine>(&theta).unwrap());
        for (ra, rb) in analytic.iter().zip(&by_differences) {
            for (x, y) in ra.iter().zip(rb) {
                let rel = (x - y).abs() / y.abs().max(1.0);
                assert!(rel <= bar, "{point:?}: {analytic:?} {by_differences:?}");
            }
        }
    }
}

#[test]
fn hessian_of_a_counts_score_matches_differences_of_its_gradient() {
    let score = counts_score();
    let memory = ScoreMemory { accepted: None, stats: None, observed: no_counts() };
    let (r, _) = NewtonWithHalving::default().minimize::<Machine, Dense, _>(
        &score,
        memory,
        vector(&[0.0]),
    );
    let fit = r.unwrap();
    assert!(fit.converged);
    assert_hessians_agree(&score, &shown(&fit.theta), 1e-6);
}

/// Positive responses with variance `phi mu^2`; the dispersion is the root of
/// `dp + 2 n (psi(1 / phi) + ln phi) + Mp phi`.
#[derive(Clone)]
struct Positive;

impl Loss for Positive {
    fn deviance_per_obs(&self, y: Double, mu: Double) -> Double {
        let (y, mu) = (f(y), f(mu));
        d(2.0 * ((y - mu) / mu - (y / mu).ln()))
    }
    fn initial_mu(&self, y: &Vec<Double>) -> Vec<Double> {
        y.iter().copied().collect()
    }
    fn use_newton_irls(&self) -> bool {
        false
    }
    fn irls_observed_pair(
        &self,
        _y: &Vec<Double>,
        _mu: &Vec<Double>,
        _eta: &Vec<Double>,
        _prior_w: &Vec<Double>,
    ) -> Option<(Vec<Double>, Vec<Double>)> {
        None
    }
    fn saturated_log_lik(&self, y: Double, sigma2: Double) -> Double {
        let phi = f(sigma2);
        let lg = f(log_gamma::<Machine>(d(1.0 / phi)));
        d(-(1.0 + phi.ln()) / phi - lg - f(y).ln())
    }
    fn profile_score_sigma2(&self, dp: Double, n: usize, n_minus_mp: Double, _init: Double) -> Double {
        let (dp, n, mp) = (f(dp), n as f64, n as f64 - f(n_minus_mp));
        let root = |phi: f64| dp + 2.0 * n * (f(digamma::<Machine>(d(1.0 / phi))) + phi.ln()) + mp * phi;
        let (mut lo, mut hi) = (1e-4_f64, 10.0_f64);
        for _ in 0..200 {
            let mid = 0.5 * (lo + hi);
            if root(mid) > 0.0 {
                lo = mid;
            } else {
                hi = mid;
            }
        }
        d(0.5 * (lo + hi))
    }
    fn profile_sigma2_is_closed_form(&self) -> bool {
        false
    }
    fn fixed_dispersion(&self) -> Option<Double> {
        None
    }
    fn allows_no_refresh(&self) -> bool {
        false
    }
    fn skip_w_chain_in_hessian(&self) -> bool {
        true
    }
    fn observed_curvature_weights(
        &self,
        _y: &Vec<Double>,
        _eta: &Vec<Double>,
        _prior_w: &Vec<Double>,
    ) -> Option<Vec<Double>> {
        None
    }
}

#[derive(Clone)]
struct SquaredVariance;

impl VarianceFn for SquaredVariance {
    fn variance(&self, mu: Double) -> Double {
        d(f(mu) * f(mu))
    }
    fn d_variance(&self, mu: Double) -> Double {
        d(2.0 * f(mu))
    }
    fn d2_variance(&self, _mu: Double) -> Double {
        d(2.0)
    }
}

#[test]
fn hessian_of_a_searched_dispersion_is_taken_by_differences() {
    let (design, z, s) = normal_problem();
    let y: Vec<f64> = z.iter().map(|v| v.exp()).collect();
    let inner = PirlsInner {
        x_design: design,
        y: vector(&y),
        prior_weights: None,
        s_list: vec![copied(&s)],
        family: Family { loss: Positive, link: LogLink, variance: SquaredVariance },
        opts: PirlsOpts::default(),
        observed_on: true,
    };
    let score: EnvelopeScore<Positive, _, _, Dense, Chol> = EnvelopeScore::with_inner(
        inner,
        Positive,
        MgcvTwoSigmaProfile,
        vector(&y),
        vec![s],
        vec![6],
        2,
        vector(&[0.0]),
    );
    for rho in [-4.0, -1.0, 1.5] {
        let theta = vector(&[rho]);
        let (v, g) = score.compute_value_grad::<Machine>(&theta).unwrap();
        assert!(f(v).is_finite());
        let h = 1e-4;
        let up = f(score.compute_value_grad::<Machine>(&vector(&[rho + h])).unwrap().0);
        let down = f(score.compute_value_grad::<Machine>(&vector(&[rho - h])).unwrap().0);
        let slope = (up - down) / (2.0 * h);
        assert!((f(g[0]) - slope).abs() <= 1e-5 * slope.abs().max(1.0), "{} {slope}", f(g[0]));
        let fit = score.inner.fit::<Machine, Chol>(&theta).unwrap();
        let (_, _, hin) = score.compute_value_grad_from_fit::<Machine>(&theta, &fit).unwrap();
        assert!(score.hess_analytic::<Machine>(&fit, &hin).is_none());
        let memory = ScoreMemory { accepted: None, stats: None, observed: no_counts() };
        let (ev, _) = ScoreDerivatives::<Machine>::value_grad_hess(&score, memory, &theta);
        let by_differences = score.hess_via_fd::<Machine>(&theta).unwrap();
        assert_eq!(plain(&ev.unwrap().hess), plain(&by_differences));
    }
}

#[test]
fn hessian_of_two_terms_matches_differences_of_its_gradient() {
    let (first, y, s) = normal_problem();
    let x2: Vec<f64> = (0..60).map(|i| noise(3 * i + 1)).collect();
    let (second, t) = spline(&x2, 6);
    let rows: Vec<Vec<f64>> = plain(&first)
        .into_iter()
        .zip(plain(&second))
        .map(|(mut a, b)| {
            a.extend(&b[1..]);
            a
        })
        .collect();
    let mut pens = vec![vec![vec![0.0; 13]; 13]; 2];
    for (i, r) in plain(&s).iter().enumerate() {
        for (j, v) in r.iter().enumerate() {
            pens[0][i][j] = *v;
        }
    }
    for (i, r) in plain(&t).iter().enumerate().skip(1) {
        for (j, v) in r.iter().enumerate().skip(1) {
            pens[1][7 + i][7 + j] = *v;
        }
    }
    let score: GaussianClosedFormScore<Normal, Dense, Chol> = GaussianClosedFormScore::new::<Machine>(
        of_rows(&rows, 13),
        vector(&y),
        vec![of_rows(&pens[0], 13), of_rows(&pens[1], 13)],
        None,
        Normal,
        vec![6, 4],
        3,
        vector(&[0.0, 0.0]),
    );
    assert_hessians_agree(&score, &[-3.0, 0.5], 1e-6);
}

#[test]
fn bounds_of_the_smoothing_parameters() {
    let score = counts_score();
    let b: Vec<(f64, f64)> = score.axis_bounds().iter().map(|&(l, h)| (f(l), f(h))).collect();
    assert_eq!(b, vec![(-30.0, 30.0)]);
}

/// Polynomials in the mean and two shape parameters, up to the fourth degree.
#[derive(Clone)]
struct Jet {
    c: Vec<f64>,
}

fn jet_terms() -> Vec<(usize, usize, usize)> {
    let mut v = vec![];
    for i in 0..5 {
        for j in 0..5 - i {
            for k in 0..5 - i - j {
                v.push((i, j, k));
            }
        }
    }
    v
}

fn place(t: (usize, usize, usize)) -> usize {
    t.0 * 25 + t.1 * 5 + t.2
}

impl Jet {
    fn constant(x: f64) -> Jet {
        let mut c = vec![0.0; 125];
        c[place((0, 0, 0))] = x;
        Jet { c }
    }
    fn variable(x: f64, t: (usize, usize, usize)) -> Jet {
        let mut j = Jet::constant(x);
        j.c[place(t)] = 1.0;
        j
    }
    fn scaled(&self, a: f64) -> Jet {
        Jet { c: self.c.iter().map(|x| a * x).collect() }
    }
    fn plus(&self, o: &Jet) -> Jet {
        Jet { c: self.c.iter().zip(&o.c).map(|(a, b)| a + b).collect() }
    }
    fn times(&self, o: &Jet) -> Jet {
        let terms = jet_terms();
        let mut c = vec![0.0; 125];
        for &(i, j, k) in &terms {
            let a = self.c[place((i, j, k))];
            for &(l, m, n) in &terms {
                if a != 0.0 && i + j + k + l + m + n <= 4 {
                    c[place((i + l, j + m, k + n))] += a * o.c[place((l, m, n))];
                }
            }
        }
        Jet { c }
    }
    /// A function of the jet from its derivatives at the constant part.
    fn composed(&self, derivs: [f64; 5]) -> Jet {
        let mut rest = self.clone();
        rest.c[place((0, 0, 0))] = 0.0;
        let mut power = Jet::constant(1.0);
        let mut out = Jet::constant(derivs[0]);
        let mut fact = 1.0;
        for (n, dn) in derivs.iter().enumerate().skip(1) {
            power = power.times(&rest);
            fact *= n as f64;
            out = out.plus(&power.scaled(dn / fact));
        }
        out
    }
    fn exp(&self) -> Jet {
        let e = self.c[place((0, 0, 0))].exp();
        self.composed([e, e, e, e, e])
    }
    fn ln(&self) -> Jet {
        let x = self.c[place((0, 0, 0))];
        self.composed([x.ln(), 1.0 / x, -1.0 / x.powi(2), 2.0 / x.powi(3), -6.0 / x.powi(4)])
    }
    /// The derivative of the given orders.
    fn d(&self, i: usize, j: usize, k: usize) -> f64 {
        let fact = |n: usize| (1..=n).map(|m| m as f64).product::<f64>();
        self.c[place((i, j, k))] * fact(i) * fact(j) * fact(k)
    }
}

/// Scaled t: `log sigma2` and `log (nu - 3)`.
#[derive(Clone, Copy)]
struct Heavy {
    shape: [f64; 2],
}

impl Heavy {
    fn nu(&self) -> f64 {
        3.0 + self.shape[1].exp()
    }
    fn sigma2(&self) -> f64 {
        self.shape[0].exp()
    }
    /// The deviance of an observation as a jet.
    fn jet(&self, y: f64, mu: f64) -> Jet {
        let m = Jet::variable(mu, (1, 0, 0));
        let s = Jet::variable(self.shape[0], (0, 1, 0)).exp();
        let nu = Jet::constant(3.0).plus(&Jet::variable(self.shape[1], (0, 0, 1)).exp());
        let r = Jet::constant(y).plus(&m.scaled(-1.0));
        let q = nu.times(&s);
        let log = q.plus(&r.times(&r)).ln().plus(&q.ln().scaled(-1.0));
        nu.plus(&Jet::constant(1.0)).times(&log)
    }
    /// `-2` times the saturated log-likelihood, without what does not depend on
    /// the shape: `log sigma2` and `log nu` less two log gamma terms.
    fn minus_two_ls(&self) -> f64 {
        let nu = self.nu();
        self.sigma2().ln() + nu.ln()
            - 2.0 * (lg((nu + 1.0) / 2.0) - lg(nu / 2.0))
    }
}

fn lg(x: f64) -> f64 {
    f(log_gamma::<Machine>(d(x)))
}

impl Loss for Heavy {
    fn deviance_per_obs(&self, y: Double, mu: Double) -> Double {
        let r = f(y) - f(mu);
        let q = self.nu() * self.sigma2();
        d((self.nu() + 1.0) * (1.0 + r * r / q).ln())
    }
    fn initial_mu(&self, y: &Vec<Double>) -> Vec<Double> {
        y.clone()
    }
    fn use_newton_irls(&self) -> bool {
        false
    }
    fn irls_observed_pair(
        &self,
        y: &Vec<Double>,
        _mu: &Vec<Double>,
        eta: &Vec<Double>,
        _prior_w: &Vec<Double>,
    ) -> Option<(Vec<Double>, Vec<Double>)> {
        let (nu, s) = (self.nu(), self.sigma2());
        let q = nu * s;
        let (mut ws, mut zs) = (vec![], vec![]);
        for i in 0..y.len() {
            let r = f(y[i]) - f(eta[i]);
            let den = q + r * r;
            let slope = -2.0 * (nu + 1.0) * r / den;
            let observed = (nu + 1.0) * (q - r * r) / (den * den);
            let w = if observed > 1e-12 { observed } else { (nu + 1.0) / ((nu + 3.0) * s) };
            ws.push(d(w));
            zs.push(d(f(eta[i]) - 0.5 * slope / w));
        }
        Some((ws, zs))
    }
    fn saturated_log_lik(&self, _y: Double, _sigma2: Double) -> Double {
        d(-0.5 * self.minus_two_ls())
    }
    fn profile_score_sigma2(&self, _dp: Double, _n: usize, _m: Double, _init: Double) -> Double {
        d(1.0)
    }
    fn profile_sigma2_is_closed_form(&self) -> bool {
        false
    }
    fn fixed_dispersion(&self) -> Option<Double> {
        Some(d(1.0))
    }
    fn allows_no_refresh(&self) -> bool {
        true
    }
    fn skip_w_chain_in_hessian(&self) -> bool {
        false
    }
    fn observed_curvature_weights(
        &self,
        y: &Vec<Double>,
        eta: &Vec<Double>,
        _prior_w: &Vec<Double>,
    ) -> Option<Vec<Double>> {
        Some((0..y.len()).map(|i| d(0.5 * self.jet(f(y[i]), f(eta[i])).d(2, 0, 0))).collect())
    }
}

fn rows_of(v: Vec<Vec<f64>>, cols: usize) -> Matrix {
    of_rows(&v, cols)
}

impl ShapeLoss<Identity, ConstVariance> for Heavy {
    fn n_shape_params(&self) -> usize {
        2
    }
    fn set_shape_params(
        _base: &Family<Heavy, Identity, ConstVariance>,
        shape: &Vec<Double>,
    ) -> Family<Heavy, Identity, ConstVariance> {
        Family {
            loss: Heavy { shape: [f(shape[0]), f(shape[1])] },
            link: Identity,
            variance: ConstVariance,
        }
    }
    fn score_rank_adjustment(&self) -> i32 {
        0
    }
    fn shape_axis_step_caps(&self) -> Vec<Double> {
        vector(&[1.0, 1.0])
    }
    fn shape_axis_bounds(&self) -> Vec<(Double, Double)> {
        vec![(d(-10.0), d(10.0)), (d(-5.0), d(5.0))]
    }
    fn ift_trace_weight_derivs(
        &self,
        _y: &Vec<Double>,
        _eta: &Vec<Double>,
        _prior_w: &Vec<Double>,
    ) -> Option<(Matrix, Vec<Double>)> {
        None
    }
    fn level1_shape_derivatives(
        &self,
        y: &Vec<Double>,
        eta: &Vec<Double>,
        _prior_w: &Vec<Double>,
    ) -> Option<Level1ShapeDerivs> {
        let jets: Vec<Jet> = (0..y.len()).map(|i| self.jet(f(y[i]), f(eta[i]))).collect();
        Some(Level1ShapeDerivs {
            dth: rows_of(jets.iter().map(|j| vec![j.d(0, 1, 0), j.d(0, 0, 1)]).collect(), 2),
            dmuth: rows_of(jets.iter().map(|j| vec![j.d(1, 1, 0), j.d(1, 0, 1)]).collect(), 2),
            dmu2th: rows_of(jets.iter().map(|j| vec![j.d(2, 1, 0), j.d(2, 0, 1)]).collect(), 2),
            dmu3: jets.iter().map(|j| d(j.d(3, 0, 0))).collect(),
        })
    }
    fn level2_shape_derivatives(
        &self,
        y: &Vec<Double>,
        eta: &Vec<Double>,
        _prior_w: &Vec<Double>,
    ) -> Option<Level2ShapeDerivs> {
        let jets: Vec<Jet> = (0..y.len()).map(|i| self.jet(f(y[i]), f(eta[i]))).collect();
        let pairs = |m: usize| {
            rows_of(
                jets.iter().map(|j| vec![j.d(m, 2, 0), j.d(m, 1, 1), j.d(m, 0, 2)]).collect(),
                3,
            )
        };
        Some(Level2ShapeDerivs {
            dth2: pairs(0),
            dmu_th2: pairs(1),
            dmu2_th2: pairs(2),
            dmu3_th: rows_of(jets.iter().map(|j| vec![j.d(3, 1, 0), j.d(3, 0, 1)]).collect(), 2),
            dmu4: jets.iter().map(|j| d(j.d(4, 0, 0))).collect(),
        })
    }
    fn analytic_shape_score_gradient(
        &self,
        _y: &Vec<Double>,
        _mu: &Vec<Double>,
        _dp: Double,
        _n_minus_mp: Double,
        _phi: Double,
    ) -> Option<Vec<Double>> {
        None
    }
    fn analytic_shape_score_hessian(
        &self,
        _y: &Vec<Double>,
        _mu: &Vec<Double>,
        _dp: Double,
        _n_minus_mp: Double,
        _phi: Double,
    ) -> Option<Matrix> {
        None
    }
    fn prefers_full_fd_hessian(&self) -> bool {
        false
    }
    fn d_loss_dmu(&self, y: Double, mu: Double) -> Double {
        d(self.jet(f(y), f(mu)).d(1, 0, 0))
    }
    fn d2_loss_dmu(&self, y: Double, mu: Double) -> Double {
        d(self.jet(f(y), f(mu)).d(2, 0, 0))
    }
    fn sum_saturated_log_lik_dtheta(
        &self,
        y: &Vec<Double>,
        _phi: Double,
        _prior_w: &Vec<Double>,
    ) -> Vec<Double> {
        let n = y.len() as f64;
        let (nu, e) = (self.nu(), self.shape[1].exp());
        let dg = |x: f64| f(digamma::<Machine>(d(x)));
        let dnu = 1.0 / nu - (dg((nu + 1.0) / 2.0) - dg(nu / 2.0));
        vector(&[-0.5 * n, -0.5 * n * dnu * e])
    }
    fn sum_saturated_log_lik_d2theta(
        &self,
        y: &Vec<Double>,
        _phi: Double,
        _prior_w: &Vec<Double>,
    ) -> Vec<Double> {
        let n = y.len() as f64;
        let (nu, e) = (self.nu(), self.shape[1].exp());
        let dg = |x: f64| f(digamma::<Machine>(d(x)));
        let tg = |x: f64| f(trigamma::<Machine>(d(x)));
        let dnu = 1.0 / nu - (dg((nu + 1.0) / 2.0) - dg(nu / 2.0));
        let d2nu = -1.0 / (nu * nu) - 0.5 * (tg((nu + 1.0) / 2.0) - tg(nu / 2.0));
        vector(&[0.0, 0.0, -0.5 * n * (d2nu * e * e + dnu * e)])
    }
}

type HeavyScore = ShapeAwarePirlsScore<Heavy, Identity, ConstVariance, Dense, Chol>;

fn heavy_score(y: &[f64], design: Matrix, s: Matrix, shape: [f64; 2], tol: f64) -> HeavyScore {
    let rank = design.cols - 2;
    ShapeAwareEnvelopeScore::new(
        InnerData {
            x_design: design,
            y: vector(y),
            prior_weights: None,
            s_list: vec![s],
            opts: PirlsOpts { dev_rel_tol: d(tol), max_iters: 200, ..PirlsOpts::default() },
            observed_on: false,
        },
        Family {
            loss: Heavy { shape },
            link: Identity,
            variance: ConstVariance,
        },
        vec![rank],
        2,
        vector(&[0.0]),
        PirlsInnerBuilder,
        FixedAtOneProfile,
    )
}

#[test]
fn ift_dbeta_drho_matches_fd_of_beta_hat() {
    let n = 90;
    let xs: Vec<f64> = (0..n).map(|i| (i as f64) / (n as f64)).collect();
    let mut ys = Vec::with_capacity(n);
    for (i, &xi) in xs.iter().enumerate() {
        let base = (2.0 * std::f64::consts::PI * xi).sin();
        let r = ((i as f64) * 12.9898 + 78.233).sin() * 43758.5453;
        let frac = r - r.floor();
        let noise = if frac > 0.9 { 6.0 * (frac - 0.5) } else { 0.3 * (frac - 0.5) };
        ys.push(base + noise);
    }
    let (design, s) = spline(&xs, 8);
    let score = heavy_score(&ys, design, s, [0.0, 2.0_f64.ln()], 1e-9);
    let rows = plain(&score.data.x_design);
    let pen = plain(&score.data.s_list[0]);
    let p_cols = 8;

    let ln = |nu: f64| (nu - 2.0_f64).ln();
    for &rho0 in &[0.0_f64, 4.0, 8.0] {
        let theta = vec![rho0, 0.0, ln(5.0)];
        let fit_at = |rho: f64| {
            score.fit_inner_at::<Machine>(&vector(&[rho, theta[1], theta[2]])).unwrap()
        };
        let (fit, fam) = fit_at(rho0);
        let (beta, mu) = (shown(&fit.beta), shown(&fit.mu));
        let lambda = rho0.exp();
        let rhs: Vec<f64> = (0..p_cols).map(|c| -lambda * dot(&pen[c], &beta)).collect();
        let analytic = shown(&Chol::solve(&fit.a_factor, &vector(&rhs)));

        let nu = fam.loss.nu();
        let sigma2 = fam.loss.sigma2();
        let q = nu * sigma2;
        let mut w_obs = vec![0.0; n];
        for i in 0..n {
            let r = ys[i] - mu[i];
            let s = q + r * r;
            let dmu2 = 2.0 * (nu + 1.0) * (q - r * r) / (s * s);
            w_obs[i] = 0.5 * dmu2;
        }
        let mut h_true = vec![vec![0.0; p_cols]; p_cols];
        for a in 0..p_cols {
            for b in 0..p_cols {
                let acc: f64 = (0..n).map(|i| rows[i][a] * w_obs[i] * rows[i][b]).sum();
                h_true[a][b] = acc + lambda * pen[a][b];
            }
        }
        let obs_analytic =
            shown(&Dense::solve(&of_rows(&h_true, p_cols), &vector(&rhs)).unwrap());

        let h = 1e-4_f64;
        let (up, down) = (shown(&fit_at(rho0 + h).0.beta), shown(&fit_at(rho0 - h).0.beta));
        let fd: Vec<f64> = up.iter().zip(&down).map(|(a, b)| (a - b) / (2.0 * h)).collect();
        let den = largest(&fd).max(1e-300);
        let off = |v: &Vec<f64>| {
            largest(&v.iter().zip(&fd).map(|(a, b)| a - b).collect::<Vec<f64>>())
        };
        let (e_exp, e_obs) = (off(&analytic), off(&obs_analytic));

        let u: Vec<f64> = (0..n)
            .map(|i| {
                let r = ys[i] - mu[i];
                let s = q + r * r;
                let dmu = -2.0 * (nu + 1.0) * r / s;
                -0.5 * dmu
            })
            .collect();
        let stat: Vec<f64> = (0..p_cols)
            .map(|c| {
                (0..n).map(|i| rows[i][c] * u[i]).sum::<f64>() - lambda * dot(&pen[c], &beta)
            })
            .collect();
        let stat_norm = largest(&stat);

        if rho0 == 0.0 {
            assert!(
                stat_norm < 1e-6,
                "PIRLS is not at its fixed point ({stat_norm:.3e}), so the FD of \
                 beta-hat is not a valid oracle and this test proves nothing"
            );
            assert!(
                e_obs / den < 1e-5,
                "IFT dbeta/drho disagrees with FD of beta-hat by {:.3e} relative \
                 (expected-W A gives {:.3e})",
                e_obs / den,
                e_exp / den
            );
        }
    }
}

fn mild_score() -> HeavyScore {
    let (design, y, s) = normal_problem();
    heavy_score(&y, design, s, [-2.0, 0.4], 1e-14)
}

#[test]
fn gradient_and_hessian_with_shape_parameters_are_derivatives() {
    let score = mild_score();
    let theta = [-6.0, -2.0, 0.4];
    let (_, g) = score.compute_value_grad::<Machine>(&vector(&theta), &mut no_counts()).unwrap();
    for axis in 0..3 {
        let h = 1e-4;
        let shifted = |e: f64| {
            let mut t = theta;
            t[axis] += e;
            f(score.compute_value::<Machine>(&vector(&t), &mut no_counts()).unwrap())
        };
        let fd = (shifted(h) - shifted(-h)) / (2.0 * h);
        assert!(close(f(g[axis]), fd, 1e-5), "axis {axis}: {} {fd}", f(g[axis]));
    }

    let ev = score.compute_value_grad_hess_analytical::<Machine>(&vector(&theta), &mut no_counts()).unwrap();
    assert_eq!(shown(&ev.grad), shown(&g));
    let hess = plain(&ev.hess);
    for a in 0..3 {
        let h = 1e-4;
        let at = |e: f64| {
            let mut t = theta;
            t[a] += e;
            shown(&score.compute_value_grad::<Machine>(&vector(&t), &mut no_counts()).unwrap().1)
        };
        let (up, down) = (at(h), at(-h));
        for b in 0..3 {
            let fd = (up[b] - down[b]) / (2.0 * h);
            let bar = if a == 0 && b == 0 { 1e-6 } else { 2e-2 };
            assert!(close(hess[a][b], fd, bar), "{a},{b}: {} {fd}", hess[a][b]);
            assert_eq!(hess[a][b], hess[b][a]);
        }
    }
    for by in [
        score.hess_via_fd_on_grad::<Machine>(&vector(&theta), &mut no_counts()).unwrap(),
        score.hess_via_fd_on_value::<Machine>(&vector(&theta), &mut no_counts()).unwrap(),
    ] {
        let m = plain(&by);
        for a in 0..3 {
            for b in 0..3 {
                assert!(close(m[a][b], hess[a][b], 2e-2), "{a},{b}: {} {}", m[a][b], hess[a][b]);
            }
        }
    }
}

#[test]
fn search_over_shape_parameters_ends_at_a_stationary_point() {
    let score = mild_score();
    let memory = ScoreMemory { accepted: None, stats: Some(FitStats::new()), observed: no_counts() };
    let (r, _) = NewtonWithHalving::default().minimize::<Machine, Dense, _>(
        &score,
        memory,
        vector(&[0.0, -2.0, 0.5]),
    );
    let fit = r.unwrap();
    assert!(fit.converged);
    let v = f(score.compute_value::<Machine>(&fit.theta, &mut no_counts()).unwrap());
    for axis in 0..2 {
        for e in [-0.05, 0.05] {
            let mut t = fit.theta.clone();
            t[axis] = d(f(t[axis]) + e);
            assert!(f(score.compute_value::<Machine>(&t, &mut no_counts()).unwrap()) > v - 1e-6);
        }
    }
}

#[test]
fn scores_are_taken_apart() {
    let score = mild_score();
    let theta = vector(&[0.3, -3.0, 0.4]);
    let (fit, family, parts) = score.evaluate_reml_at_scat::<Machine>(&theta, &mut no_counts()).unwrap();
    assert_eq!(family.loss.shape, [-3.0, 0.4]);
    let pen = plain(&score.data.s_list[0]);
    let beta = shown(&fit.beta);
    let bsb: f64 = (0..8).map(|c| beta[c] * dot(&pen[c], &beta)).sum();
    assert!(close(f(parts.bsb_per_term[0]), bsb, 1e-12));
    assert!(close(f(parts.bsb_total), 0.3_f64.exp() * bsb, 1e-12));
    assert!(close(f(parts.dp), f(fit.deviance) + f(parts.bsb_total), 1e-12));
    assert!(close(f(parts.log_det_lambda_s), 6.0 * 0.3, 1e-12));
    assert!(close(f(parts.ls), -30.0 * family.loss.minus_two_ls(), 1e-12));
    assert_eq!((f(parts.phi), parts.mp), (1.0, 2));
    let two_pi = 2.0 * std::f64::consts::PI;
    let want = f(parts.dp) / 2.0 - two_pi.ln() + 0.5 * f(parts.log_det_h)
        - 0.5 * f(parts.log_det_lambda_s)
        - f(parts.ls);
    assert!(close(f(parts.score), want, 1e-12));
    assert_eq!(parts.score, score.compute_value::<Machine>(&theta, &mut no_counts()).unwrap());

    let (_, _, tweedie) = score.evaluate_reml_at_tweedie::<Machine>(&theta).unwrap();
    assert_eq!(tweedie.score, parts.score);
    let (_, ocat, grad) = score.evaluate_reml_at_ocat::<Machine>(&theta).unwrap();
    assert!(close(f(ocat.score), f(parts.score) + f(parts.ls), 1e-12));
    let (_, g) = score.compute_value_grad::<Machine>(&theta, &mut no_counts()).unwrap();
    assert_eq!(grad[0], g[0]);
}

#[test]
fn joint_hessians_are_symmetric_however_they_are_taken() {
    let theta = vector(&[0.3, -3.0, 0.4]);
    let score = mild_score();
    let (fit, family) = score.fit_inner_at::<Machine>(&theta).unwrap();
    let (_, c) = score
        .eval_grad_with_fit::<Machine>(&theta, &fit, &family, &mut no_counts())
        .unwrap();
    let hessians = [
        score.compute_value_grad_hess_analytical::<Machine>(&theta, &mut no_counts()).unwrap().hess,
        score.hess_via_fd_on_value::<Machine>(&theta, &mut no_counts()).unwrap(),
        score.hess_via_fd_on_grad::<Machine>(&theta, &mut no_counts()).unwrap(),
        score.hess_via_fd_frozen_beta::<Machine>(&theta, &fit, &c, &mut no_counts()).unwrap(),
        score.hess_via_ift_analytic::<Machine>(&theta, &fit, &family, &c).unwrap(),
    ];
    for h in hessians {
        let h = plain(&h);
        assert_eq!(h.len(), 3);
        for i in 0..3 {
            for j in 0..i {
                assert_eq!(h[i][j], h[j][i]);
            }
        }
    }
}

#[test]
fn a_point_is_probed_and_evaluated_with_one_score() {
    let theta = vector(&[0.3, -3.0, 0.4]);
    let score = mild_score();
    let probed = score.compute_value::<Machine>(&theta, &mut no_counts()).unwrap();
    let ev = score
        .compute_value_grad_hess_analytical::<Machine>(&theta, &mut no_counts())
        .unwrap();
    assert_eq!(probed, ev.value);
}

#[test]
fn every_evaluation_of_the_score_counts_its_observed_curvature() {
    let theta = vector(&[0.3, -3.0, 0.4]);
    let mut score = mild_score();
    score.data.observed_on = true;
    let tried = |c: &ObservedPdCounts| {
        let (ok, fallback) = observed_pd_counts(c);
        ok + fallback
    };
    let mut counts = no_counts();
    score.compute_value_grad::<Machine>(&theta, &mut counts).unwrap();
    assert_eq!(tried(&counts), 1);
    let mut counts = no_counts();
    score.compute_value_grad_hess_analytical::<Machine>(&theta, &mut counts).unwrap();
    assert_eq!(tried(&counts), 1);
    let mut counts = no_counts();
    score.hess_via_fd_on_value::<Machine>(&theta, &mut counts).unwrap();
    assert_eq!(tried(&counts), 1 + 3 * 2 + 3 * 4);
    let mut counts = no_counts();
    score.hess_via_fd_on_grad::<Machine>(&theta, &mut counts).unwrap();
    assert_eq!(tried(&counts), 3 * 2);
    let fit = score.fit_inner_at::<Machine>(&theta).unwrap();
    let (_, c) = score
        .eval_grad_with_fit::<Machine>(&theta, &fit.0, &fit.1, &mut no_counts())
        .unwrap();
    let mut counts = no_counts();
    score.hess_via_fd_frozen_beta::<Machine>(&theta, &fit.0, &c, &mut counts).unwrap();
    assert_eq!(tried(&counts), 2);
}

#[test]
fn observed_curvature_enters_the_score_where_it_is_switched_on() {
    let theta = vector(&[0.3, -3.0, 0.4]);
    let off = mild_score();
    let mut on = mild_score();
    on.data.observed_on = true;
    let (fit, family, before) = off.evaluate_reml_at_scat::<Machine>(&theta, &mut no_counts()).unwrap();
    let mut counts = no_counts();
    let (_, _, after) = on.evaluate_reml_at_scat::<Machine>(&theta, &mut counts).unwrap();
    let tried = observed_pd_counts(&counts);
    assert_eq!(tried.0 + tried.1, 1);
    on.compute_value::<Machine>(&theta, &mut counts).unwrap();
    assert_eq!(observed_pd_counts(&counts), (2 * tried.0, 2 * tried.1));
    off.compute_value::<Machine>(&theta, &mut counts).unwrap();
    assert_eq!(observed_pd_counts(&counts), (2 * tried.0, 2 * tried.1));
    let memory = ScoreMemory { accepted: None, stats: None, observed: counts };
    let (_, kept) = ScoreDerivatives::<Machine>::value(&on, memory, &theta);
    assert_eq!(observed_pd_counts(&kept.observed), (3 * tried.0, 3 * tried.1));
    assert_eq!(before.log_det_h, fit.log_det_a());
    assert_eq!(after.score, on.compute_value::<Machine>(&theta, &mut no_counts()).unwrap());
    let rows = plain(&off.data.x_design);
    let pen = plain(&off.data.s_list[0]);
    let w: Vec<f64> = (0..60)
        .map(|i| 0.5 * family.loss.jet(f(off.data.y[i]), f(fit.eta[i])).d(2, 0, 0))
        .collect();
    assert!(w.iter().any(|&x| x < 0.0));
    let mut h = vec![vec![0.0; 8]; 8];
    for a in 0..8 {
        for b in 0..8 {
            let data: f64 = (0..60).map(|i| rows[i][a] * w[i] * rows[i][b]).sum();
            h[a][b] = data + 0.3_f64.exp() * pen[a][b];
        }
    }
    match Dense::cholesky(&of_rows(&h, 8)) {
        Ok(l) => {
            let want = f(CholeskySolver::logdet::<Machine>(&l));
            assert!(close(f(after.log_det_h), want, 1e-9), "{} {want}", f(after.log_det_h));
        }
        Err(_) => assert_eq!(after.log_det_h, before.log_det_h),
    }
}

#[test]
fn points_of_the_wrong_length_are_refused() {
    let mut score = mild_score();
    let two = vector(&[0.0, 0.0]);
    match score.evaluate_reml_at_tweedie::<Machine>(&two) {
        Err(e) => assert_eq!(
            e.message().unwrap(),
            "evaluate_reml_at_tweedie expects theta=[ρ_1..ρ_T, log_φ, p_transform] (length 3); got 2"
        ),
        Ok(_) => panic!("two parameters for three"),
    }
    match score.evaluate_reml_at_scat::<Machine>(&two, &mut no_counts()) {
        Err(e) => assert_eq!(
            e.message().unwrap(),
            "evaluate_reml_at_scat expects theta=[ρ_1..ρ_T, log_σ², log(ν-2)] (length 3); got 2"
        ),
        Ok(_) => panic!("two parameters for three"),
    }
    score.n_shape = 1;
    match score.evaluate_reml_at_negbin::<Machine>(&vector(&[0.0, 0.0, 0.0])) {
        Err(e) => assert_eq!(
            e.message().unwrap(),
            "evaluate_reml_at_negbin expects theta=[ρ_1..ρ_T, log_θ] (length 2); got 3"
        ),
        Ok(_) => panic!("three parameters for two"),
    }
}

impl ShapeLoss<LogLink, MeanVariance> for Counts {
    fn n_shape_params(&self) -> usize {
        0
    }
    fn set_shape_params(
        _base: &Family<Counts, LogLink, MeanVariance>,
        _shape: &Vec<Double>,
    ) -> Family<Counts, LogLink, MeanVariance> {
        Family { loss: Counts { start: None }, link: LogLink, variance: MeanVariance }
    }
    fn score_rank_adjustment(&self) -> i32 {
        0
    }
    fn shape_axis_step_caps(&self) -> Vec<Double> {
        vec![]
    }
    fn shape_axis_bounds(&self) -> Vec<(Double, Double)> {
        vec![]
    }
    fn ift_trace_weight_derivs(
        &self,
        _y: &Vec<Double>,
        eta: &Vec<Double>,
        _prior_w: &Vec<Double>,
    ) -> Option<(Matrix, Vec<Double>)> {
        let none = Matrix { rows: eta.iter().map(|_| vec![]).collect(), cols: 0 };
        Some((none, eta.iter().map(|&e| d(f(e).exp())).collect()))
    }
    fn level1_shape_derivatives(
        &self,
        _y: &Vec<Double>,
        _eta: &Vec<Double>,
        _prior_w: &Vec<Double>,
    ) -> Option<Level1ShapeDerivs> {
        None
    }
    fn level2_shape_derivatives(
        &self,
        _y: &Vec<Double>,
        _eta: &Vec<Double>,
        _prior_w: &Vec<Double>,
    ) -> Option<Level2ShapeDerivs> {
        None
    }
    fn analytic_shape_score_gradient(
        &self,
        _y: &Vec<Double>,
        _mu: &Vec<Double>,
        _dp: Double,
        _n_minus_mp: Double,
        _phi: Double,
    ) -> Option<Vec<Double>> {
        None
    }
    fn analytic_shape_score_hessian(
        &self,
        _y: &Vec<Double>,
        _mu: &Vec<Double>,
        _dp: Double,
        _n_minus_mp: Double,
        _phi: Double,
    ) -> Option<Matrix> {
        None
    }
    fn prefers_full_fd_hessian(&self) -> bool {
        false
    }
    fn d_loss_dmu(&self, y: Double, mu: Double) -> Double {
        d(2.0 * (1.0 - f(y) / f(mu)))
    }
    fn d2_loss_dmu(&self, y: Double, mu: Double) -> Double {
        d(2.0 * f(y) / (f(mu) * f(mu)))
    }
    fn sum_saturated_log_lik_dtheta(
        &self,
        _y: &Vec<Double>,
        _phi: Double,
        _prior_w: &Vec<Double>,
    ) -> Vec<Double> {
        vec![]
    }
    fn sum_saturated_log_lik_d2theta(
        &self,
        _y: &Vec<Double>,
        _phi: Double,
        _prior_w: &Vec<Double>,
    ) -> Vec<Double> {
        vec![]
    }
}

fn shapeless_score() -> ShapeAwarePirlsScore<Counts, LogLink, MeanVariance, Dense, Chol> {
    let (design, y, s) = counts_problem();
    ShapeAwareEnvelopeScore::new(
        InnerData {
            x_design: design,
            y: vector(&y),
            prior_weights: None,
            s_list: vec![s],
            opts: PirlsOpts { dev_rel_tol: d(1e-13), ..PirlsOpts::default() },
            observed_on: false,
        },
        Family { loss: Counts { start: None }, link: LogLink, variance: MeanVariance },
        vec![6],
        2,
        vector(&[0.0]),
        PirlsInnerBuilder,
        FixedAtOneProfile,
    )
}

#[test]
fn a_score_without_shape_parameters_is_the_plain_score() {
    let shaped = shapeless_score();
    let plain_score = counts_score();
    for rho in [-2.0, 0.5, 3.0] {
        let theta = vector(&[rho]);
        let v = f(shaped.compute_value::<Machine>(&theta, &mut no_counts()).unwrap());
        let (w, _) = plain_score.compute_value_grad::<Machine>(&theta).unwrap();
        assert!(close(v, f(w), 1e-8), "{v} {}", f(w));
        let (_, g) = shaped.compute_value_grad::<Machine>(&theta, &mut no_counts()).unwrap();
        let h = 1e-4;
        let at = |e: f64| f(shaped.compute_value::<Machine>(&vector(&[rho + e]), &mut no_counts()).unwrap());
        let fd = (at(h) - at(-h)) / (2.0 * h);
        assert!(close(f(g[0]), fd, 1e-5), "rho={rho}: {} {fd}", f(g[0]));
        let ev = shaped.compute_value_grad_hess_analytical::<Machine>(&theta, &mut no_counts()).unwrap();
        let slope = |e: f64| {
            f(shaped.compute_value_grad::<Machine>(&vector(&[rho + e]), &mut no_counts()).unwrap().1[0])
        };
        let fd2 = (slope(h) - slope(-h)) / (2.0 * h);
        assert!(close(plain(&ev.hess)[0][0], fd2, 1e-4), "rho={rho}: {:?} {fd2}", plain(&ev.hess));
    }
}

#[test]
fn a_trial_without_a_full_fit_is_close_to_the_score() {
    let score = shapeless_score();
    let theta = vector(&[0.5]);
    let (ev, state) = score.compute_value_grad_hess_rho_only::<Machine>(&theta, None, &mut no_counts()).unwrap();
    assert!(close(f(ev.value), f(score.compute_value::<Machine>(&theta, &mut no_counts()).unwrap()), 1e-9));
    let (v, stats) = score.compute_value_no_refresh::<Machine>(
        &state,
        &vector(&[0.6]),
        Some(FitStats::new()),
    );
    let want = f(score.compute_value::<Machine>(&vector(&[0.6]), &mut no_counts()).unwrap());
    assert!(close(f(v.unwrap()), want, 1e-4), "{} {want}", f(v.unwrap()));
    let n = stats.unwrap().snapshot();
    assert_eq!((n.no_refresh_attempts, n.no_refresh_hits), (1, 1));
    let (none, _) = score.compute_value_no_refresh::<Machine>(&None, &vector(&[0.6]), None);
    assert!(none.is_none());
}

#[test]
fn a_moved_shape_has_no_trial_without_a_full_fit() {
    let score = mild_score();
    let theta = vector(&[-6.0, -2.0, 0.4]);
    let (_, state) = score.compute_value_grad_hess_rho_only::<Machine>(&theta, None, &mut no_counts()).unwrap();
    let (v, _) = score.compute_value_no_refresh::<Machine>(
        &state,
        &vector(&[-5.9, -1.5, 0.4]),
        None,
    );
    assert!(v.is_none());
}

/// Ordered categories with a logistic error.
#[derive(Clone)]
struct Ordered {
    cuts: Vec<f64>,
}

fn logistic(x: f64) -> f64 {
    1.0 / (1.0 + (-x).exp())
}

impl OcatLoss for Ordered {
    fn n_cats(&self) -> usize {
        self.cuts.len() - 1
    }
    fn alpha(&self) -> Vec<Double> {
        vector(&self.cuts)
    }
    fn deviance_per_obs(&self, y: Double, mu: Double) -> Double {
        let k = f(y) as usize;
        let p = logistic(self.cuts[k] - f(mu)) - logistic(self.cuts[k - 1] - f(mu));
        d(-2.0 * p.ln())
    }
    fn fdiff_boundary(lo: Double, hi: Double) -> Double {
        d(logistic(f(hi)) - logistic(f(lo)))
    }
    fn abcd_a(x: Double) -> Double {
        let p = logistic(f(x));
        d(p * p - p)
    }
    fn abcd_b(x: Double) -> Double {
        let p = logistic(f(x));
        d(p - 3.0 * p * p + 2.0 * p * p * p)
    }
}

fn ordered_problem() -> (Matrix, Vec<f64>, Matrix) {
    let x = grid_points(60);
    let y: Vec<f64> = x
        .iter()
        .enumerate()
        .map(|(i, &t)| {
            let v = 3.0 * (t - 0.5) + 2.0 * (noise(i) - 0.5);
            if v < -1.0 {
                1.0
            } else if v < 1.0 {
                2.0
            } else {
                3.0
            }
        })
        .collect();
    let (design, s) = spline(&x, 6);
    (design, y, s)
}

#[test]
fn ordered_fit_is_stationary() {
    let (design, y, s) = ordered_problem();
    let inner = OcatInner {
        x_design: design,
        y: vector(&y),
        prior_weights: None,
        s_list: vec![s],
        loss: Ordered { cuts: vec![f64::NEG_INFINITY, -1.0, 1.0, f64::INFINITY] },
        opts: PirlsOpts::default(),
    };
    let fit = inner.fit::<Machine, Chol>(&vector(&[0.0])).unwrap();
    assert!(fit.converged);
    let (rows, pen) = (plain(&inner.x_design), plain(&inner.s_list[0]));
    let beta = shown(&fit.beta);
    let objective = |b: &[f64]| {
        let dev: f64 = (0..60)
            .map(|i| f(OcatLoss::deviance_per_obs(&inner.loss, d(y[i]), d(dot(&rows[i], b)))))
            .sum();
        dev + (0..6).map(|c| b[c] * dot(&pen[c], b)).sum::<f64>()
    };
    for c in 0..6 {
        let (mut up, mut down) = (beta.clone(), beta.clone());
        up[c] += 1e-4;
        down[c] -= 1e-4;
        let slope = (objective(&up) - objective(&down)) / 2e-4;
        assert!(slope.abs() < 1e-3, "{slope}");
    }
}

impl Ordered {
    fn second(&self, y: f64, mu: f64) -> f64 {
        let k = y as usize;
        let (lo, hi) = (d(self.cuts[k - 1] - mu), d(self.cuts[k] - mu));
        let p = f(Ordered::fdiff_boundary(lo, hi));
        let a = f(Ordered::abcd_a(hi)) - f(Ordered::abcd_a(lo));
        let b = f(Ordered::abcd_b(hi)) - f(Ordered::abcd_b(lo));
        2.0 * (a * a / p - b) / p
    }
}

impl Loss for Ordered {
    fn deviance_per_obs(&self, y: Double, mu: Double) -> Double {
        OcatLoss::deviance_per_obs(self, y, mu)
    }
    fn initial_mu(&self, y: &Vec<Double>) -> Vec<Double> {
        y.clone()
    }
    fn use_newton_irls(&self) -> bool {
        false
    }
    fn irls_observed_pair(
        &self,
        _y: &Vec<Double>,
        _mu: &Vec<Double>,
        _eta: &Vec<Double>,
        _prior_w: &Vec<Double>,
    ) -> Option<(Vec<Double>, Vec<Double>)> {
        None
    }
    fn saturated_log_lik(&self, _y: Double, _sigma2: Double) -> Double {
        d(0.0)
    }
    fn profile_score_sigma2(&self, _dp: Double, _n: usize, _m: Double, _init: Double) -> Double {
        d(1.0)
    }
    fn profile_sigma2_is_closed_form(&self) -> bool {
        false
    }
    fn fixed_dispersion(&self) -> Option<Double> {
        Some(d(1.0))
    }
    fn allows_no_refresh(&self) -> bool {
        false
    }
    fn skip_w_chain_in_hessian(&self) -> bool {
        false
    }
    fn observed_curvature_weights(
        &self,
        y: &Vec<Double>,
        eta: &Vec<Double>,
        _prior_w: &Vec<Double>,
    ) -> Option<Vec<Double>> {
        Some((0..y.len()).map(|i| d(0.5 * self.second(f(y[i]), f(eta[i])))).collect())
    }
}

impl ShapeLoss<Identity, ConstVariance> for Ordered {
    fn n_shape_params(&self) -> usize {
        self.cuts.len() - 3
    }
    fn set_shape_params(
        _base: &Family<Ordered, Identity, ConstVariance>,
        shape: &Vec<Double>,
    ) -> Family<Ordered, Identity, ConstVariance> {
        let mut cuts = vec![f64::NEG_INFINITY, -1.0];
        for &t in shape {
            cuts.push(cuts[cuts.len() - 1] + f(t).exp());
        }
        cuts.push(f64::INFINITY);
        Family { loss: Ordered { cuts }, link: Identity, variance: ConstVariance }
    }
    fn score_rank_adjustment(&self) -> i32 {
        -1
    }
    fn shape_axis_step_caps(&self) -> Vec<Double> {
        vector(&[1.0])
    }
    fn shape_axis_bounds(&self) -> Vec<(Double, Double)> {
        vec![(d(-10.0), d(10.0))]
    }
    fn ift_trace_weight_derivs(
        &self,
        y: &Vec<Double>,
        eta: &Vec<Double>,
        _prior_w: &Vec<Double>,
    ) -> Option<(Matrix, Vec<Double>)> {
        let slope = |i: usize| {
            let (y, e) = (f(y[i]), f(eta[i]));
            0.5 * (self.second(y, e + 1e-5) - self.second(y, e - 1e-5)) / 2e-5
        };
        let dw = (0..y.len()).map(|i| d(slope(i))).collect();
        Some((rows_of(vec![vec![0.0]; y.len()], 1), dw))
    }
    fn level1_shape_derivatives(
        &self,
        _y: &Vec<Double>,
        _eta: &Vec<Double>,
        _prior_w: &Vec<Double>,
    ) -> Option<Level1ShapeDerivs> {
        None
    }
    fn level2_shape_derivatives(
        &self,
        _y: &Vec<Double>,
        _eta: &Vec<Double>,
        _prior_w: &Vec<Double>,
    ) -> Option<Level2ShapeDerivs> {
        None
    }
    fn analytic_shape_score_gradient(
        &self,
        _y: &Vec<Double>,
        _mu: &Vec<Double>,
        _dp: Double,
        _n_minus_mp: Double,
        _phi: Double,
    ) -> Option<Vec<Double>> {
        None
    }
    fn analytic_shape_score_hessian(
        &self,
        _y: &Vec<Double>,
        _mu: &Vec<Double>,
        _dp: Double,
        _n_minus_mp: Double,
        _phi: Double,
    ) -> Option<Matrix> {
        None
    }
    fn prefers_full_fd_hessian(&self) -> bool {
        true
    }
    fn d_loss_dmu(&self, _y: Double, _mu: Double) -> Double {
        d(0.0)
    }
    fn d2_loss_dmu(&self, y: Double, mu: Double) -> Double {
        d(self.second(f(y), f(mu)))
    }
    fn sum_saturated_log_lik_dtheta(
        &self,
        _y: &Vec<Double>,
        _phi: Double,
        _prior_w: &Vec<Double>,
    ) -> Vec<Double> {
        vector(&[0.0])
    }
    fn sum_saturated_log_lik_d2theta(
        &self,
        _y: &Vec<Double>,
        _phi: Double,
        _prior_w: &Vec<Double>,
    ) -> Vec<Double> {
        vector(&[0.0])
    }
}

#[test]
fn gradient_of_an_ordered_score_is_its_derivative() {
    let (design, y, s) = ordered_problem();
    let score: ShapeAwareOcatScore<Ordered, Identity, ConstVariance, Dense, Chol> =
        ShapeAwareEnvelopeScore::new(
            InnerData {
                x_design: design,
                y: vector(&y),
                prior_weights: None,
                s_list: vec![s],
                opts: PirlsOpts { dev_rel_tol: d(1e-12), max_iters: 200, ..PirlsOpts::default() },
                observed_on: false,
            },
            Family {
                loss: Ordered { cuts: vec![f64::NEG_INFINITY, -1.0, 1.0, f64::INFINITY] },
                link: Identity,
                variance: ConstVariance,
            },
            vec![4],
            2,
            vector(&[0.0]),
            OcatInnerBuilder,
            FixedAtOneProfile,
        );
    for rho in [-1.0, 1.0] {
        let (fit, parts, grad) =
            score.evaluate_reml_at_ocat::<Machine>(&vector(&[rho, 0.7])).unwrap();
        assert!(fit.converged);
        assert!(close(f(parts.log_det_lambda_s), 3.0 * rho, 1e-12));
        let at = |e: f64| f(score.compute_value::<Machine>(&vector(&[rho + e, 0.7]), &mut no_counts()).unwrap());
        assert!(close(f(parts.score), at(0.0), 1e-12));
        let h = 1e-3;
        let fd = (at(h) - at(-h)) / (2.0 * h);
        assert!(close(f(grad[0]), fd, 1e-4), "rho={rho}: {} {fd}", f(grad[0]));
    }
}

#[test]
fn categories_are_nearest_integers_in_range() {
    assert_eq!(category::<Machine>(d(2.4), 4), 2);
    assert_eq!(category::<Machine>(d(-7.0), 4), 1);
    assert_eq!(category::<Machine>(d(9.0), 4), 4);
    assert_eq!(category::<Machine>(d(f64::NAN), 4), 1);
}

/// Smoothed pinball loss.
struct Pinball;

impl ElfLoss for Pinball {
    fn elf_parts(y: Double, eta: Double, p: ElfParams) -> ElfParts {
        let (tau, sigma, lambda) = (f(p.tau), f(p.sigma), f(p.lambda));
        let z = f(y) - f(eta);
        let s = logistic(z / lambda);
        ElfParts {
            deviance: d(2.0 * ((tau - 1.0) * z + lambda * (1.0 + (z / lambda).exp()).ln()) / sigma),
            sigmoid: d(s),
            d2l_dmu: d(2.0 * s * (1.0 - s) / (lambda * sigma)),
        }
    }
}

fn quantile_inner(tau: f64, sigma: f64, lambda: f64) -> ArmijoElfInner<Pinball> {
    let (design, y, s) = normal_problem();
    ArmijoElfInner {
        x_design: design,
        y: vector(&y),
        s_list: vec![s],
        params: ElfParams { tau: d(tau), sigma: d(sigma), lambda: d(lambda) },
        opts: ArmijoElfOpts::default(),
        beta_init: None,
        loss: std::marker::PhantomData,
    }
}

#[test]
fn quantile_fit_is_stationary() {
    let inner = quantile_inner(0.8, 0.1, 0.1);
    let fit = inner.fit::<Machine, Dense, Chol>(&vector(&[-3.0])).unwrap();
    assert!(fit.converged);
    let (rows, pen) = (plain(&inner.x_design), plain(&inner.s_list[0]));
    let (y, eta, beta) = (shown(&inner.y), shown(&fit.eta), shown(&fit.beta));
    for c in 0..8 {
        let push: f64 = (0..60)
            .map(|i| rows[i][c] * (logistic((y[i] - eta[i]) / 0.1) - 0.2) / 0.1)
            .sum();
        let pull = (-3.0_f64).exp() * dot(&pen[c], &beta);
        assert!((push - pull).abs() < 1e-3, "{push} {pull}");
    }
    let below = (0..60).filter(|&i| y[i] < eta[i]).count();
    assert!((40..=56).contains(&below), "{below}");
}

/// A quantile family, as the score sees it.
#[derive(Clone)]
struct Quantile {
    params: ElfParams,
}

impl Loss for Quantile {
    fn deviance_per_obs(&self, y: Double, mu: Double) -> Double {
        Pinball::elf_parts(y, mu, self.params).deviance
    }
    fn initial_mu(&self, y: &Vec<Double>) -> Vec<Double> {
        y.iter().copied().collect()
    }
    fn use_newton_irls(&self) -> bool {
        false
    }
    fn irls_observed_pair(
        &self,
        _y: &Vec<Double>,
        _mu: &Vec<Double>,
        _eta: &Vec<Double>,
        _prior_w: &Vec<Double>,
    ) -> Option<(Vec<Double>, Vec<Double>)> {
        None
    }
    fn saturated_log_lik(&self, _y: Double, _sigma2: Double) -> Double {
        d(0.0)
    }
    fn profile_score_sigma2(&self, _dp: Double, _n: usize, _m: Double, _init: Double) -> Double {
        d(1.0)
    }
    fn profile_sigma2_is_closed_form(&self) -> bool {
        false
    }
    fn fixed_dispersion(&self) -> Option<Double> {
        Some(d(1.0))
    }
    fn allows_no_refresh(&self) -> bool {
        false
    }
    fn skip_w_chain_in_hessian(&self) -> bool {
        false
    }
    fn observed_curvature_weights(
        &self,
        _y: &Vec<Double>,
        _eta: &Vec<Double>,
        _prior_w: &Vec<Double>,
    ) -> Option<Vec<Double>> {
        None
    }
}

#[test]
fn weights_of_a_quantile_fit_come_with_their_slopes() {
    let (sigma, lambda) = (1.0, 0.3);
    let inner = quantile_inner(0.5, sigma, lambda);
    let fit = inner.fit::<Machine, Dense, Chol>(&vector(&[-1.0])).unwrap();
    let (y, eta) = (shown(&inner.y), shown(&fit.eta));
    let slopes = shown(fit.dw_deta.as_ref().unwrap());
    assert_eq!(plain(fit.x_design.as_ref().unwrap()), plain(&inner.x_design));
    assert_eq!(slopes.len(), 60);
    for i in 0..60 {
        let s = logistic((y[i] - eta[i]) / lambda);
        let expected = -s * (1.0 - s) * (1.0 - 2.0 * s) / (lambda * lambda * sigma);
        assert!((slopes[i] - expected).abs() < 1e-6, "{} {expected}", slopes[i]);
    }
}

#[test]
fn hessian_of_a_quantile_score_matches_differences_of_its_gradient() {
    let inner = quantile_inner(0.5, 1.0, 0.3);
    let params = inner.params;
    let (_, y, s) = normal_problem();
    let score: EnvelopeScore<Quantile, _, _, Dense, Chol> = EnvelopeScore::with_inner(
        inner,
        Quantile { params },
        FixedAtOneProfile,
        vector(&y),
        vec![s],
        vec![6],
        2,
        vector(&[0.0]),
    );
    let opts = NewtonOpts {
        grad_tol: d(1e-9),
        reml_tol: d(1e-10),
        ..NewtonOpts::default()
    };
    let memory = ScoreMemory { accepted: None, stats: None, observed: no_counts() };
    let (r, _) = NewtonWithHalving::new(opts).minimize::<Machine, Dense, _>(
        &score,
        memory,
        vector(&[0.0]),
    );
    assert_hessians_agree(&score, &shown(&r.unwrap().theta), 1e-4);
}

#[test]
fn quantile_parameters_out_of_range_are_refused() {
    let cases = [
        (0.0, 1.0, 1.0),
        (1.0, 1.0, 1.0),
        (f64::NAN, 1.0, 1.0),
        (0.5, 0.0, 1.0),
        (0.5, 1.0, -1.0),
    ];
    for (tau, sigma, lambda) in cases {
        match quantile_inner(tau, sigma, lambda).fit::<Machine, Dense, Chol>(&vector(&[0.0])) {
            Err(GamrsError::InvalidParameter(_)) => {}
            _ => panic!("tau={tau} sigma={sigma} lambda={lambda}"),
        }
    }
}

#[test]
fn a_failed_multiplicative_update_is_counted_as_far_as_it_came() {
    let one = |_: &GaussianInnerFit<Chol>| d(1.0);
    let score = normal_score();
    let mut stats = FitStats::new();
    let smaller = of_rows(&vec![vec![0.0; 7]; 7], 7);
    let r = fellner_schall_minimize::<Machine, Dense, Chol, _, _>(
        &score.inner,
        &vec![smaller],
        &vec![6],
        7,
        &vector(&[0.0]),
        one,
        FellnerSchallOpts::default(),
        &mut stats,
    );
    assert!(matches!(r, Err(GamrsError::InvalidParameter(_))));
    let s = stats.snapshot();
    assert_eq!((s.outer_iterations, s.inner_pirls_calls), (1, 1));

    let mut broken = normal_score();
    for c in 0..8 {
        broken.inner.s_list[0].set(c, c, d(-1e12));
    }
    let mut stats = FitStats::new();
    let r = fellner_schall_minimize::<Machine, Dense, Chol, _, _>(
        &broken.inner,
        &broken.s_list,
        &vec![6],
        8,
        &vector(&[0.0]),
        one,
        FellnerSchallOpts::default(),
        &mut stats,
    );
    assert!(r.is_err());
    let s = stats.snapshot();
    assert_eq!((s.outer_iterations, s.inner_pirls_calls), (1, 0));
}

#[test]
fn multiplicative_update_agrees_with_the_newton_search() {
    let score = normal_score();
    let memory = ScoreMemory { accepted: None, stats: None, observed: no_counts() };
    let (newton, _) = NewtonWithHalving::default().minimize::<Machine, Dense, _>(
        &score,
        memory,
        vector(&[0.0]),
    );
    let newton = newton.unwrap();
    let pen = plain(&score.s_list[0]);
    let rho_of = |fit: &GaussianInnerFit<Chol>| shown(&fit.beta);
    let phi = |fit: &GaussianInnerFit<Chol>| {
        let beta = rho_of(fit);
        let a_inv = plain(&fit.a_inv());
        let rows = plain(&score.inner.x_design);
        let edf: f64 = rows
            .iter()
            .map(|r| (0..8).map(|c| r[c] * dot(&a_inv[c], r)).sum::<f64>())
            .sum();
        let _ = (&beta, &pen);
        d(f(fit.rss) / (fit.n as f64 - edf))
    };
    let mut stats = FitStats::new();
    let fs = fellner_schall_minimize::<Machine, Dense, Chol, _, _>(
        &score.inner,
        &score.s_list,
        &vec![6],
        8,
        &vector(&[0.0]),
        phi,
        FellnerSchallOpts { max_iters: 500, ..FellnerSchallOpts::default() },
        &mut stats,
    )
    .unwrap();
    assert!(fs.converged);
    assert!(
        (f(fs.theta[0]) - f(newton.theta[0])).abs() < 0.2,
        "{} {}",
        f(fs.theta[0]),
        f(newton.theta[0])
    );
    assert!(stats.snapshot().inner_pirls_calls > 0);
}

#[test]
fn observed_curvature_switch() {
    for on in ["1", "true", "TRUE", "tRuE"] {
        assert!(observed_log_det_h_enabled(Some(on)), "{on}");
    }
    for off in ["", "0", "yes", "true ", "trux", "11"] {
        assert!(!observed_log_det_h_enabled(Some(off)), "{off}");
    }
    assert!(!observed_log_det_h_enabled(None));
    assert!(score_log_det_h_applies(true, false));
    assert!(score_log_det_h_applies(false, true));
    assert!(!score_log_det_h_applies(false, false));
    let mut c = ObservedPdCounts::new();
    c.count(true);
    c.count(true);
    c.count(false);
    assert_eq!(observed_pd_counts(&c), (2, 1));
    reset_observed_pd_counts(&mut c);
    assert_eq!(observed_pd_counts(&c), (0, 0));
}
