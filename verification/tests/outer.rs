use gamrs::arith::Arithmetic;
use gamrs::double::Double;
use gamrs::error::GamrsError;
use gamrs::inner::pirls::curvature::ObservedPdCounts;
use gamrs::matrix::Matrix;
use gamrs::outer::minimize::{Evaluation, ScoreDerivatives, ScoreMemory};
use gamrs::double::inf_norm;
use gamrs::outer::step::{
    active_axes, cap_step, clamp_to_box, concave_bound_jump, make_psd, make_psd_gmw,
    newton_direction, project_onto_box, quadratic_model_error, steepest_descent_dir,
    step_failure_is_convergence, Bounds, Spectrum, StandingPoint, MGCV_CONV_TOL, QERROR_THRESH,
};
use gamrs::outer::{
    clear_algorithm_override, reject_unsupported_algorithm, set_algorithm_override,
    NewtonWithHalving, OuterAlgorithm, Overrides, FS_UNAVAILABLE_MARKER,
};
use gamrs::stats::FitStats;
use gamrs::traits::DenseBackend;

struct Machine;

fn d(x: f64) -> Double {
    if x.is_nan() {
        Double::from_bits(f64::NAN.to_bits())
    } else {
        Double::from_bits(x.to_bits())
    }
}

fn f(x: Double) -> f64 {
    f64::from_bits(x.bits)
}

impl Arithmetic for Machine {
    fn plus(a: Double, b: Double) -> Double {
        d(f(a) + f(b))
    }
    fn minus(a: Double, b: Double) -> Double {
        d(f(a) - f(b))
    }
    fn times(a: Double, b: Double) -> Double {
        d(f(a) * f(b))
    }
    fn over(a: Double, b: Double) -> Double {
        d(f(a) / f(b))
    }
    fn power(a: Double, b: Double) -> Double {
        d(f(a).powf(f(b)))
    }
    fn root(a: Double) -> Double {
        d(f(a).sqrt())
    }
    fn exp(a: Double) -> Double {
        d(f(a).exp())
    }
    fn ln(a: Double) -> Double {
        d(f(a).ln())
    }
    fn sin(a: Double) -> Double {
        d(f(a).sin())
    }
    fn count(n: usize) -> Double {
        d(n as f64)
    }
    fn whole(n: i64) -> Double {
        d(n as f64)
    }
    fn natural(n: u64) -> Double {
        d(n as f64)
    }
    fn floor_int(a: Double) -> i64 {
        f(a).floor() as i64
    }
    fn round_int(a: Double) -> i64 {
        f(a).round() as i64
    }
    fn shown(a: Double) -> String {
        format!("{}", f(a))
    }
}

fn vector(v: &[f64]) -> Vec<Double> {
    v.iter().map(|&x| d(x)).collect()
}

fn matrix(rows: &[&[f64]]) -> Matrix {
    Matrix {
        rows: rows.iter().map(|r| vector(r)).collect(),
        cols: if rows.is_empty() { 0 } else { rows[0].len() },
    }
}

fn plain(m: &Matrix) -> Vec<Vec<f64>> {
    m.rows.iter().map(|r| r.iter().map(|&x| f(x)).collect()).collect()
}

/// Eigenvalues and eigenvectors by Jacobi rotations.
fn jacobi(a: &Matrix) -> (Vec<f64>, Vec<Vec<f64>>) {
    let n = a.rows.len();
    let mut m = plain(a);
    let mut v = vec![vec![0.0; n]; n];
    for i in 0..n {
        v[i][i] = 1.0;
    }
    for _ in 0..100 {
        for p in 0..n {
            for q in p + 1..n {
                if m[p][q].abs() < 1e-300 {
                    continue;
                }
                let theta = (m[q][q] - m[p][p]) / (2.0 * m[p][q]);
                let t = theta.signum() / (theta.abs() + (theta * theta + 1.0).sqrt());
                let t = if theta == 0.0 { 1.0 } else { t };
                let c = 1.0 / (t * t + 1.0).sqrt();
                let s = t * c;
                for k in 0..n {
                    let (x, y) = (m[k][p], m[k][q]);
                    m[k][p] = c * x - s * y;
                    m[k][q] = s * x + c * y;
                }
                for k in 0..n {
                    let (x, y) = (m[p][k], m[q][k]);
                    m[p][k] = c * x - s * y;
                    m[q][k] = s * x + c * y;
                }
                for k in 0..n {
                    let (x, y) = (v[k][p], v[k][q]);
                    v[k][p] = c * x - s * y;
                    v[k][q] = s * x + c * y;
                }
            }
        }
    }
    let mut order: Vec<usize> = (0..n).collect();
    order.sort_by(|&i, &j| m[i][i].partial_cmp(&m[j][j]).unwrap());
    let eigs = order.iter().map(|&i| m[i][i]).collect();
    let vecs = (0..n).map(|r| order.iter().map(|&i| v[r][i]).collect()).collect();
    (eigs, vecs)
}

struct Dense;

impl DenseBackend for Dense {
    fn cholesky(a: &Matrix) -> Result<Matrix, String> {
        let n = a.rows.len();
        let m = plain(a);
        let mut l = vec![vec![0.0; n]; n];
        for i in 0..n {
            for j in 0..=i {
                let mut s = m[i][j];
                for k in 0..j {
                    s -= l[i][k] * l[j][k];
                }
                if i == j {
                    if s <= 0.0 {
                        return Err("not positive definite".to_string());
                    }
                    l[i][i] = s.sqrt();
                } else {
                    l[i][j] = s / l[j][j];
                }
            }
        }
        Ok(Matrix { rows: l.iter().map(|r| vector(r)).collect(), cols: n })
    }
    fn eigh(a: &Matrix) -> Option<Spectrum> {
        let (eigs, vecs) = jacobi(a);
        Some(Spectrum {
            eigs: vector(&eigs),
            vecs: Matrix { rows: vecs.iter().map(|r| vector(r)).collect(), cols: a.cols },
        })
    }
    fn solve(a: &Matrix, b: &Vec<Double>) -> Option<Vec<Double>> {
        let n = b.len();
        let mut m = plain(a);
        let mut x: Vec<f64> = b.iter().map(|&v| f(v)).collect();
        for i in 0..n {
            let mut p = i;
            for r in i..n {
                if m[r][i].abs() > m[p][i].abs() {
                    p = r;
                }
            }
            if m[p][i] == 0.0 {
                return None;
            }
            m.swap(i, p);
            x.swap(i, p);
            for r in i + 1..n {
                let q = m[r][i] / m[i][i];
                for c in i..n {
                    m[r][c] -= q * m[i][c];
                }
                x[r] -= q * x[i];
            }
        }
        for i in (0..n).rev() {
            for c in i + 1..n {
                x[i] -= m[i][c] * x[c];
            }
            x[i] /= m[i][i];
        }
        Some(vector(&x))
    }
}

/// `(theta - opt)' M (theta - opt) / 2`.
struct QuadScore {
    m: Vec<Vec<f64>>,
    opt: Vec<f64>,
    bounds: Option<Vec<(f64, f64)>>,
}

impl QuadScore {
    fn parts(&self, theta: &Vec<Double>) -> (f64, Vec<f64>) {
        let r: Vec<f64> = theta.iter().zip(&self.opt).map(|(&t, o)| f(t) - o).collect();
        let g: Vec<f64> =
            self.m.iter().map(|row| row.iter().zip(&r).map(|(a, b)| a * b).sum()).collect();
        let v: f64 = 0.5 * r.iter().zip(&g).map(|(a, b)| a * b).sum::<f64>();
        (v, g)
    }
}

impl ScoreDerivatives<Machine> for QuadScore {
    type Accepted = ();
    fn value(
        &self,
        memory: ScoreMemory<()>,
        theta: &Vec<Double>,
    ) -> (Result<Double, GamrsError>, ScoreMemory<()>) {
        (Ok(d(self.parts(theta).0)), memory)
    }
    fn value_grad_hess(
        &self,
        memory: ScoreMemory<()>,
        theta: &Vec<Double>,
    ) -> (Result<Evaluation, GamrsError>, ScoreMemory<()>) {
        let (v, g) = self.parts(theta);
        let hess = Matrix {
            rows: self.m.iter().map(|r| vector(r)).collect(),
            cols: self.opt.len(),
        };
        (Ok(Evaluation { value: d(v), grad: vector(&g), hess }), memory)
    }
    fn axis_limits(&self) -> (Option<Vec<Double>>, Option<Bounds>) {
        let b = self.bounds.as_ref().map(|b| b.iter().map(|&(l, h)| (d(l), d(h))).collect());
        (None, b)
    }
}

fn lands_on_2d_quadratic_optimum() {
    let score = QuadScore {
        m: vec![vec![2.0, 0.5], vec![0.5, 1.5]],
        opt: vec![1.3, -0.7],
        bounds: None,
    };
    let solver = NewtonWithHalving::default();
    let memory = ScoreMemory { accepted: None, stats: Some(FitStats::new()), observed: ObservedPdCounts::new() };
    let (r, after) = solver.minimize::<Machine, Dense, QuadScore>(&score, memory, vector(&[0.0, 0.0]));
    let fit = r.unwrap();
    for i in 0..2 {
        assert!(
            (f(fit.theta[i]) - score.opt[i]).abs() < 1e-8,
            "theta[{i}] = {} vs opt {}",
            f(fit.theta[i]),
            score.opt[i]
        );
    }
    assert!(fit.converged);
    let counts = after.stats.unwrap().snapshot();
    assert!(counts.outer_iterations >= 1);
    assert!(counts.line_search_trials >= 1);
}

#[test]
fn outer_newton_lands_on_2d_quadratic_optimum() {
    lands_on_2d_quadratic_optimum();
}

#[test]
fn mod_newton_lands_on_2d_quadratic_optimum() {
    lands_on_2d_quadratic_optimum();
}

fn psd_fix_lifts() {
    let h = matrix(&[&[-1.0, 0.0], &[0.0, 2.0]]);
    let fixed = make_psd::<Machine, Dense>(&h, d(1e-8));
    let (mut sorted, _) = jacobi(&fixed);
    sorted.sort_by(|a, b| a.partial_cmp(b).unwrap());
    assert!((sorted[0] - 1e-8).abs() < 1e-12, "small eig {}", sorted[0]);
    assert!((sorted[1] - 2.0).abs() < 1e-12, "large eig {}", sorted[1]);
}

#[test]
fn outer_psd_fix_lifts_negative_eigenvalues() {
    psd_fix_lifts();
}

#[test]
fn mod_psd_fix_lifts_negative_eigenvalues() {
    psd_fix_lifts();
}

fn refusal_carries_the_marker() {
    let mut o = Overrides { tuning: None, algorithm: None };
    set_algorithm_override(&mut o, OuterAlgorithm::FellnerSchall);
    let err = reject_unsupported_algorithm(&o, "test").unwrap_err().message().unwrap();
    clear_algorithm_override(&mut o);
    assert!(err.contains(FS_UNAVAILABLE_MARKER), "refusal lost the marker: {err}");
    assert!(!err.contains("  "), "message has a run of spaces: {err}");
    assert!(reject_unsupported_algorithm(&o, "test").is_ok());
}

#[test]
fn outer_fellner_schall_refusal_carries_the_marker_python_matches_on() {
    refusal_carries_the_marker();
}

#[test]
fn mod_fellner_schall_refusal_carries_the_marker_python_matches_on() {
    refusal_carries_the_marker();
}

fn bounds(b: &[(f64, f64)]) -> Bounds {
    b.iter().map(|&(l, h)| (d(l), d(h))).collect()
}

fn shown(v: &Vec<Double>) -> Vec<f64> {
    v.iter().map(|&x| f(x)).collect()
}

#[test]
fn a_pinned_axis_does_not_throttle_the_live_ones() {
    let theta = vector(&[8.7, -0.75, 10.0]);
    let raw = vector(&[0.83, -1e-5, 19.4]);
    let bnds = bounds(&[(-50.0, 50.0), (-50.0, 50.0), (-10.0, 10.0)]);
    let caps = vector(&[5.0, 1.0, 1.0]);

    let projected = project_onto_box::<Machine>(&raw, &theta, Some(&bnds));
    assert_eq!(f(projected[2]), 0.0, "outward component at the bound must go");
    let capped = cap_step::<Machine>(&projected, Some(&caps), d(5.0));
    assert!((f(capped[0]) - 0.83).abs() < 1e-12, "live axis was throttled to {}", f(capped[0]));

    let throttled = cap_step::<Machine>(&raw, Some(&caps), d(5.0));
    assert!(
        f(throttled[0]) < 0.05,
        "expected the old throttle to be ~0.043, got {}",
        f(throttled[0])
    );
}

#[test]
fn projection_leaves_inward_and_interior_components_alone() {
    let theta = vector(&[0.0, 10.0, 10.0]);
    let step = vector(&[3.0, -2.0, 2.0]);
    let bnds = bounds(&[(-10.0, 10.0), (-10.0, 10.0), (-10.0, 10.0)]);
    let out = project_onto_box::<Machine>(&step, &theta, Some(&bnds));
    assert_eq!(f(out[0]), 3.0, "interior axis untouched");
    assert_eq!(f(out[1]), -2.0, "at the bound but pointing back inside");
    assert_eq!(f(out[2]), 0.0, "at the bound and pointing out");
}

#[test]
fn projection_is_a_no_op_without_bounds() {
    let step = vector(&[3.0, -2.0]);
    let out = project_onto_box::<Machine>(&step, &vector(&[0.0, 0.0]), None);
    assert_eq!(out, step);
}

#[test]
fn concave_axis_jumps_to_the_bound_its_gradient_points_at() {
    let theta = vector(&[8.7, 8.0]);
    let g = vector(&[-1e-5, -1.9e-5]);
    let h = matrix(&[&[0.105, 0.0], &[0.0, -9.6e-4]]);
    let newton = vector(&[0.83, 0.02]);
    let bnds = bounds(&[(-50.0, 50.0), (-10.0, 10.0)]);
    let jump = concave_bound_jump::<Machine>(&theta, &g, &h, &newton, Some(&bnds), d(7e-6))
        .expect("a concave axis 2.0 from its bound with a 0.02 step must jump");
    assert!((f(jump[1]) - 2.0).abs() < 1e-12, "jump to hi, got {}", f(jump[1]));
    assert_eq!(f(jump[0]), 0.83, "other axes keep their Newton component");

    let g_lo = vector(&[-1e-5, 1.9e-5]);
    let jump_lo =
        concave_bound_jump::<Machine>(&theta, &g_lo, &h, &newton, Some(&bnds), d(7e-6)).unwrap();
    assert!((f(jump_lo[1]) - (-18.0)).abs() < 1e-12);
}

#[test]
fn no_jump_for_convex_axes_or_when_newton_is_already_moving() {
    let theta = vector(&[8.7, 8.0]);
    let g = vector(&[-1e-5, -1.9e-5]);
    let bnds = bounds(&[(-50.0, 50.0), (-10.0, 10.0)]);
    let convex = matrix(&[&[0.105, 0.0], &[0.0, 9.6e-4]]);
    assert!(
        concave_bound_jump::<Machine>(
            &theta,
            &g,
            &convex,
            &vector(&[0.83, 0.02]),
            Some(&bnds),
            d(7e-6)
        )
        .is_none(),
        "a positive-curvature axis has an interior optimum to find"
    );
    let concave = matrix(&[&[0.105, 0.0], &[0.0, -9.6e-4]]);
    assert!(
        concave_bound_jump::<Machine>(
            &theta,
            &g,
            &concave,
            &vector(&[0.83, 1.5]),
            Some(&bnds),
            d(7e-6)
        )
        .is_none(),
        "Newton covers 2.0 in ~1.3 steps here; the probe would be waste"
    );
    assert!(
        concave_bound_jump::<Machine>(&theta, &g, &concave, &vector(&[0.83, 0.02]), None, d(7e-6))
            .is_none(),
        "no box, no bound to jump to"
    );
}

#[test]
fn quadratic_model_error_vanishes_on_a_quadratic() {
    let g = [2.0, -1.0];
    let h = [[4.0, 1.0], [1.0, 3.0]];
    let s = [0.3, -0.7];
    let lin: f64 = g.iter().zip(s.iter()).map(|(a, b)| a * b).sum();
    let hs = [h[0][0] * s[0] + h[0][1] * s[1], h[1][0] * s[0] + h[1][1] * s[1]];
    let actual = lin + 0.5 * (s[0] * hs[0] + s[1] * hs[1]);
    let qerr = f(quadratic_model_error::<Machine>(
        &vector(&g),
        &matrix(&[&h[0], &h[1]]),
        &vector(&s),
        d(actual),
        d(70.0),
        Double::from_bits(MGCV_CONV_TOL),
    ));
    assert!(qerr < 1e-12, "expected ~0, got {qerr:.3e}");
}

#[test]
fn quadratic_model_error_flags_a_mismatched_step() {
    let qerr = f(quadratic_model_error::<Machine>(
        &vector(&[2.0]),
        &matrix(&[&[4.0]]),
        &vector(&[0.5]),
        d(-1e-8),
        d(70.0),
        Double::from_bits(MGCV_CONV_TOL),
    ));
    assert!(qerr > f64::from_bits(QERROR_THRESH), "expected a refusal, got {qerr:.3e}");
}

#[test]
fn active_axes_keeps_a_curved_axis_whose_gradient_is_dead() {
    let g = vector(&[1.0, 1e-12]);
    let h = matrix(&[&[1.0, 0.0], &[0.0, 5.0]]);
    assert_eq!(active_axes(&g, &h, d(1e-7)), vec![0, 1]);
}

#[test]
fn active_axes_always_yields_the_steepest_axis() {
    let g = vector(&[1e-12, 3e-12]);
    let h = matrix(&[&[1e-12, 0.0], &[0.0, 1e-12]]);
    assert_eq!(
        active_axes(&g, &h, d(1e-7)),
        vec![1],
        "everything is under tolerance, so keep the largest gradient"
    );
}

#[test]
fn cap_step_preserves_direction() {
    let step = [10.0, -5.0];
    let capped = cap_step::<Machine>(&vector(&step), None, d(2.0));
    assert!((f(inf_norm(&capped)) - 2.0).abs() < 1e-12);
    assert!(
        (f(capped[0]) / f(capped[1]) - step[0] / step[1]).abs() < 1e-12,
        "a global shrink must not rotate the step"
    );
}

#[test]
fn step_failure_at_a_blocked_bound_is_convergence() {
    let theta = vector(&[8.7, 10.0]);
    let g = vector(&[1e-9, -0.5]);
    let h = matrix(&[&[0.1, 0.0], &[0.0, 1e-6]]);
    let raw = vector(&[1e-9, 3.0]);
    let bnds = bounds(&[(-50.0, 50.0), (-10.0, 10.0)]);
    let spectrum = Dense::eigh(&h).unwrap();
    assert!(step_failure_is_convergence::<Machine>(&StandingPoint {
        theta: &theta,
        g: &g,
        raw_step: &raw,
        bnds: Some(&bnds),
        spectrum: Some(&spectrum),
        v: d(70.0),
        grad_norm: d(0.5),
    }));
}

#[test]
fn step_failure_with_a_live_interior_gradient_is_not_convergence() {
    let theta = vector(&[0.0, 0.0]);
    let g = vector(&[5.0, 0.0]);
    let h = matrix(&[&[1.0, 0.0], &[0.0, 1.0]]);
    let raw = vector(&[-5.0, 0.0]);
    let bnds = bounds(&[(-50.0, 50.0), (-50.0, 50.0)]);
    let spectrum = Dense::eigh(&h).unwrap();
    assert!(!step_failure_is_convergence::<Machine>(&StandingPoint {
        theta: &theta,
        g: &g,
        raw_step: &raw,
        bnds: Some(&bnds),
        spectrum: Some(&spectrum),
        v: d(70.0),
        grad_norm: d(5.0),
    }));
}

#[test]
fn steepest_descent_dir_is_unit_in_the_max_component() {
    let s = steepest_descent_dir::<Machine>(&vector(&[-0.5, 2.0, 1.0]));
    assert!((f(inf_norm(&s)) - 1.0).abs() < 1e-12);
    assert!(f(s[1]) < 0.0, "must oppose the gradient");
    assert_eq!(
        shown(&steepest_descent_dir::<Machine>(&vector(&[0.0, 0.0]))),
        vec![0.0, 0.0]
    );
}

#[test]
fn relative_indefiniteness_is_lifted_by_absolute_values() {
    let h = matrix(&[&[-3.0, 0.0], &[0.0, 2.0]]);
    let fixed = make_psd_gmw::<Machine, Dense>(&h, d(1e-8));
    let (eigs, _) = jacobi(&fixed);
    assert!((eigs[0] - 2.0).abs() < 1e-12 && (eigs[1] - 3.0).abs() < 1e-12, "{eigs:?}");
    assert_eq!(plain(&make_psd_gmw::<Machine, Dense>(&matrix(&[&[-4.0]]), d(1e-8))), vec![vec![4.0]]);
    assert_eq!(plain(&make_psd::<Machine, Dense>(&matrix(&[&[-4.0]]), d(1e-8))), vec![vec![1e-8]]);
    assert_eq!(plain(&make_psd::<Machine, Dense>(&matrix(&[&[5.0]]), d(1e-8))), vec![vec![5.0]]);
}

#[test]
fn newton_direction_solves_on_the_active_axes_alone() {
    let g = vector(&[4.0, 7.0, -6.0]);
    let h = matrix(&[&[2.0, 0.0, 0.0], &[0.0, 1.0, 0.0], &[0.0, 0.0, 3.0]]);
    let step = newton_direction::<Machine, Dense>(&g, &h, &vec![0, 2], d(1e-8));
    assert!((f(step[0]) + 2.0).abs() < 1e-12);
    assert_eq!(f(step[1]), 0.0);
    assert!((f(step[2]) - 2.0).abs() < 1e-12);
}

#[test]
fn clamping_a_point_keeps_it_in_the_box() {
    let bnds = bounds(&[(-1.0, 1.0), (-1.0, 1.0), (-1.0, 1.0)]);
    let t = clamp_to_box(vector(&[-3.0, 0.25, 9.0]), Some(&bnds));
    assert_eq!(shown(&t), vec![-1.0, 0.25, 1.0]);
    let again = clamp_to_box(t.clone(), Some(&bnds));
    assert_eq!(again, t);
    assert_eq!(shown(&clamp_to_box(vector(&[7.0]), None)), vec![7.0]);
}

#[test]
fn search_stops_on_the_face_that_the_optimum_lies_behind() {
    let score = QuadScore {
        m: vec![vec![2.0, 0.0], vec![0.0, 1.5]],
        opt: vec![12.0, -0.7],
        bounds: Some(vec![(-10.0, 10.0), (-10.0, 10.0)]),
    };
    let memory = ScoreMemory { accepted: None, stats: None, observed: ObservedPdCounts::new() };
    let (r, after) = NewtonWithHalving::default().minimize::<Machine, Dense, QuadScore>(
        &score,
        memory,
        vector(&[0.0, 0.0]),
    );
    let fit = r.unwrap();
    assert_eq!(f(fit.theta[0]), 10.0);
    assert!((f(fit.theta[1]) + 0.7).abs() < 1e-6);
    assert!(fit.converged);
    assert!(after.stats.is_none());
}

/// A score that cannot be evaluated.
struct Broken;

impl ScoreDerivatives<Machine> for Broken {
    type Accepted = ();
    fn value(
        &self,
        memory: ScoreMemory<()>,
        _theta: &Vec<Double>,
    ) -> (Result<Double, GamrsError>, ScoreMemory<()>) {
        (Err(GamrsError::SingularSystem("v".to_string())), memory)
    }
    fn value_grad_hess(
        &self,
        memory: ScoreMemory<()>,
        _theta: &Vec<Double>,
    ) -> (Result<Evaluation, GamrsError>, ScoreMemory<()>) {
        (Err(GamrsError::SingularSystem("first".to_string())), memory)
    }
    fn axis_limits(&self) -> (Option<Vec<Double>>, Option<Bounds>) {
        (None, None)
    }
}

#[test]
fn a_score_that_fails_at_the_start_ends_the_search() {
    let memory = ScoreMemory { accepted: None, stats: None, observed: ObservedPdCounts::new() };
    let (r, _) =
        NewtonWithHalving::default().minimize::<Machine, Dense, Broken>(&Broken, memory, vector(&[0.0]));
    match r {
        Err(GamrsError::SingularSystem(m)) => assert_eq!(m, "first"),
        _ => panic!("the first failure must come out"),
    }
}

/// A score without parameters that hands out caps and derivatives of no use.
struct Constant;

impl ScoreDerivatives<Machine> for Constant {
    type Accepted = ();
    fn value(
        &self,
        memory: ScoreMemory<()>,
        _theta: &Vec<Double>,
    ) -> (Result<Double, GamrsError>, ScoreMemory<()>) {
        (Ok(d(4.5)), memory)
    }
    fn value_grad_hess(
        &self,
        memory: ScoreMemory<()>,
        _theta: &Vec<Double>,
    ) -> (Result<Evaluation, GamrsError>, ScoreMemory<()>) {
        (Ok(Evaluation { value: d(4.5), grad: vector(&[1.0]), hess: matrix(&[&[1.0]]) }), memory)
    }
    fn axis_limits(&self) -> (Option<Vec<Double>>, Option<Bounds>) {
        (Some(vector(&[1.0, 2.0])), Some(bounds(&[(0.0, 1.0)])))
    }
}

#[test]
fn without_parameters_the_value_is_returned() {
    let memory = ScoreMemory { accepted: None, stats: None, observed: ObservedPdCounts::new() };
    let (r, _) = NewtonWithHalving::default().minimize::<Machine, Dense, Constant>(
        &Constant,
        memory,
        vec![],
    );
    let fit = r.unwrap();
    assert_eq!((f(fit.value), f(fit.grad_norm), fit.iterations), (4.5, 0.0, 0));
    assert!(fit.converged && fit.theta.is_empty());
}

/// A quadratic score that writes down where it is asked.
struct Watched {
    quad: QuadScore,
    probes: std::cell::RefCell<Vec<Vec<f64>>>,
    evaluations: std::cell::RefCell<Vec<Vec<f64>>>,
}

impl ScoreDerivatives<Machine> for Watched {
    type Accepted = ();
    fn value(
        &self,
        memory: ScoreMemory<()>,
        theta: &Vec<Double>,
    ) -> (Result<Double, GamrsError>, ScoreMemory<()>) {
        self.probes.borrow_mut().push(shown(theta));
        self.quad.value(memory, theta)
    }
    fn value_grad_hess(
        &self,
        memory: ScoreMemory<()>,
        theta: &Vec<Double>,
    ) -> (Result<Evaluation, GamrsError>, ScoreMemory<()>) {
        self.evaluations.borrow_mut().push(shown(theta));
        self.quad.value_grad_hess(memory, theta)
    }
    fn axis_limits(&self) -> (Option<Vec<Double>>, Option<Bounds>) {
        self.quad.axis_limits()
    }
}

#[test]
fn a_whole_search_stays_in_the_box_counts_its_trials_and_goes_down() {
    let score = Watched {
        quad: QuadScore {
            m: vec![vec![2.0, 0.5], vec![0.5, 1.5]],
            opt: vec![12.0, -0.7],
            bounds: Some(vec![(-10.0, 10.0), (-10.0, 10.0)]),
        },
        probes: Default::default(),
        evaluations: Default::default(),
    };
    let memory = ScoreMemory {
        accepted: None,
        stats: Some(FitStats::new()),
        observed: ObservedPdCounts::new(),
    };
    let (r, after) = NewtonWithHalving::default().minimize::<Machine, Dense, Watched>(
        &score,
        memory,
        vector(&[-40.0, 3.0]),
    );
    let fit = r.unwrap();
    let (probes, evaluations) = (score.probes.borrow(), score.evaluations.borrow());
    assert_eq!(evaluations[0], vec![-10.0, 3.0]);
    for t in probes.iter().chain(evaluations.iter()) {
        assert!(t.iter().all(|x| (-10.0..=10.0).contains(x)), "{t:?}");
    }
    assert_eq!(after.stats.unwrap().snapshot().line_search_trials, probes.len());
    let values: Vec<f64> =
        evaluations.iter().map(|t| score.quad.parts(&vector(t)).0).collect();
    assert!(values.windows(2).all(|w| w[1] < w[0]));
    assert!(f(fit.value) <= values[0]);
}

#[test]
fn one_factor_brings_a_step_to_its_caps() {
    assert_eq!(shown(&cap_step::<Machine>(&vector(&[10.0, -5.0]), None, d(2.0))), vec![2.0, -1.0]);
    let caps = vector(&[4.0, 1.0, 100.0]);
    let step = [8.0, -4.0, 16.0];
    let out = shown(&cap_step::<Machine>(&vector(&step), Some(&caps), d(5.0)));
    assert_eq!(out, vec![2.0, -1.0, 4.0]);
    let free = [3.0, 0.5, -99.0];
    assert_eq!(shown(&cap_step::<Machine>(&vector(&free), Some(&caps), d(5.0))), free);
}

#[test]
fn model_error_lies_between_zero_and_two() {
    let (g, h, s) = (vector(&[2.0]), matrix(&[&[4.0]]), vector(&[0.5]));
    let at = |actual: f64| {
        f(quadratic_model_error::<Machine>(
            &g,
            &h,
            &s,
            d(actual),
            d(1.0),
            Double::from_bits(MGCV_CONV_TOL),
        ))
    };
    assert_eq!(at(1.5), 0.0);
    for actual in [-1e9, -1.5, -1e-3, 0.0, 1e-3, 1.0, 2.0, 1e9] {
        assert!((0.0..=2.0).contains(&at(actual)), "{actual}: {}", at(actual));
    }
    assert!(at(-1.5) > 1.99);
}
