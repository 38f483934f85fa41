use gamrs::arith::Arithmetic;
use gamrs::double::Double;
use gamrs::inner::armijo::{ArmijoElfOpts, ArmijoRun};
use gamrs::inner::gam_fit5::OcatRun;
use gamrs::inner::pirls::{irls_row, PirlsRun, RowShape};
use gamrs::inner::{half_way, Halving, HalvingVerdict};
use gamrs::matrix::Matrix;
use gamrs::outer::fellner_schall::{updated, FellnerSchallOpts, FsReading};
use gamrs::outer::newton::{
    trial_point, trial_step, Candidate, NewtonAction, NewtonEvent, NewtonRun, Phase,
};
use gamrs::outer::step::{project_onto_box, Bounds};
use gamrs::outer::NewtonOpts;
use gamrs::score::hess_ift::{build_xtwx, compute_dev_grad_beta_working_rss, hess_ift_rho, HessIftCtx};
use gamrs::score::shape_aware::hessian::with_block;
use gamrs::score::shape_aware::level2::shape_pair_index;
use gamrs::score::shape_aware::rho_gradient::first_largest;
use gamrs::stats::FitStats;

struct Machine;

fn d(x: f64) -> Double {
    if x.is_nan() {
        Double::from_bits(f64::NAN.to_bits())
    } else {
        Double::from_bits(x.to_bits())
    }
}

fn f(x: Double) -> f64 {
    f64::from_bits(x.bits)
}

impl Arithmetic for Machine {
    fn plus(a: Double, b: Double) -> Double {
        d(f(a) + f(b))
    }
    fn minus(a: Double, b: Double) -> Double {
        d(f(a) - f(b))
    }
    fn times(a: Double, b: Double) -> Double {
        d(f(a) * f(b))
    }
    fn over(a: Double, b: Double) -> Double {
        d(f(a) / f(b))
    }
    fn power(a: Double, b: Double) -> Double {
        d(f(a).powf(f(b)))
    }
    fn root(a: Double) -> Double {
        d(f(a).sqrt())
    }
    fn exp(a: Double) -> Double {
        d(f(a).exp())
    }
    fn ln(a: Double) -> Double {
        d(f(a).ln())
    }
    fn sin(a: Double) -> Double {
        d(f(a).sin())
    }
    fn count(n: usize) -> Double {
        d(n as f64)
    }
    fn whole(n: i64) -> Double {
        d(n as f64)
    }
    fn natural(n: u64) -> Double {
        d(n as f64)
    }
    fn floor_int(a: Double) -> i64 {
        f(a).floor() as i64
    }
    fn round_int(a: Double) -> i64 {
        f(a).round() as i64
    }
    fn shown(a: Double) -> String {
        format!("{}", f(a))
    }
}


fn vector(v: &[f64]) -> Vec<Double> {
    v.iter().map(|&x| d(x)).collect()
}

fn matrix(rows: &[&[f64]]) -> Matrix {
    Matrix { rows: rows.iter().map(|r| vector(r)).collect(), cols: rows[0].len() }
}

fn plain(m: &Matrix) -> Vec<Vec<f64>> {
    m.rows.iter().map(|r| r.iter().map(|&x| f(x)).collect()).collect()
}

fn started(dim: usize, opts: NewtonOpts) -> (NewtonRun, FitStats) {
    (NewtonRun::start(opts, dim), FitStats::new())
}

fn evaluated(value: f64, grad_norm: f64) -> NewtonEvent {
    NewtonEvent::Evaluated { value: d(value), grad_norm: d(grad_norm) }
}

fn probed(value: f64, model_error: f64) -> NewtonEvent {
    NewtonEvent::Probed { trial: Some(d(value)), model_error: d(model_error) }
}

const BUILT: NewtonEvent = NewtonEvent::StepBuilt { jump: false, descent: true };

#[test]
fn a_search_without_parameters_is_over_at_once() {
    let (mut run, mut stats) = started(0, NewtonOpts::default());
    let a = run.advance::<Machine>(evaluated(3.0, 7.0), &mut stats);
    assert_eq!(a, NewtonAction::Finish);
    assert_eq!(f(run.outcome.value), 3.0);
    assert_eq!(f(run.outcome.grad_norm), 0.0);
    assert_eq!(run.outcome.iterations, 0);
    assert!(run.outcome.converged);
    assert_eq!(stats.snapshot().outer_iterations, 0);
}

#[test]
fn a_small_gradient_does_not_end_the_first_iterations() {
    let (mut run, mut stats) = started(1, NewtonOpts::default());
    let mut a = run.advance::<Machine>(evaluated(1.0, 0.0), &mut stats);
    let mut value = 1.0;
    for _ in 0..3 {
        assert_eq!(a, NewtonAction::BuildStep);
        assert_eq!(
            run.advance::<Machine>(BUILT, &mut stats),
            NewtonAction::Probe(Candidate::Full)
        );
        value -= 1e-9;
        assert_eq!(run.advance::<Machine>(probed(value, 0.0), &mut stats), NewtonAction::Refresh);
        let e = NewtonEvent::Refreshed { value: d(value), grad_norm: d(0.0) };
        a = run.advance::<Machine>(e, &mut stats);
    }
    assert_eq!(a, NewtonAction::Finish);
    assert!(run.outcome.converged);
    assert_eq!(run.outcome.iterations, 3);
    assert_eq!(stats.snapshot().outer_iterations, 4);
    assert_eq!(stats.snapshot().line_search_trials, 3);
}

#[test]
fn the_iteration_limit_returns_what_there_is() {
    let opts = NewtonOpts { max_iters: 1, ..NewtonOpts::default() };
    let (mut run, mut stats) = started(1, opts);
    run.advance::<Machine>(evaluated(5.0, 9.0), &mut stats);
    run.advance::<Machine>(BUILT, &mut stats);
    run.advance::<Machine>(probed(4.0, 0.0), &mut stats);
    let e = NewtonEvent::Refreshed { value: d(4.0), grad_norm: d(9.0) };
    assert_eq!(run.advance::<Machine>(e, &mut stats), NewtonAction::Finish);
    assert_eq!(run.outcome.iterations, 1);
    assert!(!run.outcome.converged);
    assert_eq!(f(run.outcome.value), 4.0);
}

#[test]
fn a_rejected_jump_is_followed_by_the_full_step() {
    let (mut run, mut stats) = started(2, NewtonOpts::default());
    run.advance::<Machine>(evaluated(5.0, 9.0), &mut stats);
    let a = run.advance::<Machine>(
        NewtonEvent::StepBuilt { jump: true, descent: false },
        &mut stats,
    );
    assert_eq!(a, NewtonAction::Probe(Candidate::Jump));
    let a = run.advance::<Machine>(probed(6.0, 0.0), &mut stats);
    assert_eq!(a, NewtonAction::Probe(Candidate::Full));
    assert_eq!(run.phase, Phase::Full);
}

#[test]
fn a_jump_is_accepted_whatever_the_model_says() {
    let (mut run, mut stats) = started(2, NewtonOpts::default());
    run.advance::<Machine>(evaluated(5.0, 9.0), &mut stats);
    run.advance::<Machine>(NewtonEvent::StepBuilt { jump: true, descent: true }, &mut stats);
    assert_eq!(run.advance::<Machine>(probed(4.0, 99.0), &mut stats), NewtonAction::Refresh);
}

#[test]
fn shortened_steps_switch_to_descent_once_and_end() {
    let (mut run, mut stats) = started(1, NewtonOpts::default());
    run.advance::<Machine>(evaluated(5.0, 9.0), &mut stats);
    run.advance::<Machine>(BUILT, &mut stats);
    let mut seen = vec![];
    let mut a = run.advance::<Machine>(probed(6.0, 0.0), &mut stats);
    while let NewtonAction::Probe(c) = a {
        seen.push(c);
        a = run.advance::<Machine>(probed(6.0, 0.0), &mut stats);
    }
    assert_eq!(a, NewtonAction::Classify);
    assert_eq!(seen.len(), 30);
    assert_eq!(seen[3], Candidate::Descent);
    assert_eq!(seen.iter().filter(|&&c| c == Candidate::Descent).count(), 1);
    let a = run.advance::<Machine>(NewtonEvent::Classified(true), &mut stats);
    assert_eq!(a, NewtonAction::Finish);
    assert!(run.outcome.converged);
    assert_eq!(run.outcome.iterations, 1);
    assert_eq!(stats.snapshot().line_search_trials, 31);
}

#[test]
fn without_descent_the_step_factor_ends_the_line_search() {
    let (mut run, mut stats) = started(1, NewtonOpts::default());
    run.advance::<Machine>(evaluated(5.0, 9.0), &mut stats);
    run.advance::<Machine>(NewtonEvent::StepBuilt { jump: false, descent: false }, &mut stats);
    let mut halved = 0;
    let mut a = run.advance::<Machine>(NewtonEvent::Probed { trial: None, model_error: d(0.0) }, &mut stats);
    while a == NewtonAction::Probe(Candidate::Half) {
        halved += 1;
        a = run.advance::<Machine>(probed(f64::NAN, 0.0), &mut stats);
    }
    assert_eq!(a, NewtonAction::Classify);
    assert_eq!(halved, 10);
}

#[test]
fn the_model_gate_opens_after_five_failures() {
    let (mut run, mut stats) = started(1, NewtonOpts::default());
    run.advance::<Machine>(evaluated(5.0, 9.0), &mut stats);
    run.advance::<Machine>(BUILT, &mut stats);
    let mut probes = 1;
    while run.advance::<Machine>(probed(4.0, 99.0), &mut stats) != NewtonAction::Refresh {
        probes += 1;
    }
    assert_eq!(probes, 7);
}

#[test]
fn a_failed_refresh_keeps_the_step() {
    let (mut run, mut stats) = started(1, NewtonOpts::default());
    run.advance::<Machine>(evaluated(5.0, 9.0), &mut stats);
    run.advance::<Machine>(BUILT, &mut stats);
    run.advance::<Machine>(probed(4.0, 0.0), &mut stats);
    let a = run.advance::<Machine>(NewtonEvent::RefreshFailed, &mut stats);
    assert_eq!(a, NewtonAction::BuildStep);
    assert_eq!((f(run.value), f(run.prev_value), f(run.grad_norm)), (4.0, 5.0, 9.0));
    assert_eq!(run.iter, 1);
}

#[test]
fn trial_steps_and_points() {
    let (capped, jump) = (vector(&[1.0, -2.0]), vector(&[3.0, -2.0]));
    let (last, descent) = (vector(&[6.0, -8.0]), vector(&[0.0, 1.0]));
    let step = |c: Candidate| {
        trial_step::<Machine>(c, &capped, &jump, &last, &descent)
            .iter()
            .map(|&x| f(x))
            .collect::<Vec<f64>>()
    };
    assert_eq!(step(Candidate::Jump), vec![3.0, -2.0]);
    assert_eq!(step(Candidate::Full), vec![1.0, -2.0]);
    assert_eq!(step(Candidate::Half), vec![3.0, -4.0]);
    assert_eq!(step(Candidate::Descent), vec![0.0, 2.0]);
    let bnds: Bounds = vec![(d(-1.0), d(1.0)), (d(-1.0), d(1.0))];
    let t = trial_point::<Machine>(&vector(&[0.5, 0.5]), &capped, Some(&bnds));
    assert_eq!(t, vector(&[1.0, -1.0]));
}

#[test]
fn projecting_twice_is_projecting_once() {
    let bnds: Bounds = vec![(d(-1.0), d(1.0)), (d(-1.0), d(1.0)), (d(-1.0), d(1.0))];
    let theta = vector(&[1.0, -1.0, 0.0]);
    let once = project_onto_box::<Machine>(&vector(&[2.0, -3.0, 4.0]), &theta, Some(&bnds));
    let twice = project_onto_box::<Machine>(&once, &theta, Some(&bnds));
    assert_eq!(once, twice);
    assert_eq!(once.iter().map(|&x| f(x)).collect::<Vec<f64>>(), vec![0.0, 0.0, 4.0]);
}

#[test]
fn an_update_stays_between_its_limits() {
    let o = FellnerSchallOpts::default();
    let s = matrix(&[&[1.0]]);
    let run = |rho: f64, beta: f64, phi: f64, inverse: f64| {
        let b = vector(&[beta]);
        let a_inv = matrix(&[&[inverse]]);
        let read = FsReading { phi: d(phi), beta: &b, a_inv: &a_inv };
        f(updated::<Machine>(o, &s, 1, d(rho), &read))
    };
    let want = (2.0_f64 * (1.0 - 0.5) / 9.0).ln();
    assert!((run(0.0, 3.0, 2.0, 0.5) - want).abs() < 1e-12);
    assert_eq!(run(0.0, 1e-9, 1.0, 0.5), 3.0);
    assert_eq!(run(0.0, 1e9, 1.0, 0.5), -3.0);
    assert_eq!(run(16.0, 1e-9, 1.0, 0.0), (1e7_f64).ln());
    assert_eq!(run(-20.0, 1e9, 1.0, 0.5), (1e-9_f64).ln());
}

#[test]
fn trials_are_halved_until_they_are_sound() {
    let mut h = Halving::begin(d(10.0), false);
    assert_eq!(h.judge::<Machine>(d(10.0), false), HalvingVerdict::Accept);
    assert_eq!(h.judge::<Machine>(d(11.0), false), HalvingVerdict::Halve);
    assert_eq!(h.judge::<Machine>(d(9.0), true), HalvingVerdict::Halve);
    assert_eq!(h.judge::<Machine>(d(f64::NAN), false), HalvingVerdict::Halve);
    assert_eq!(h.halvings, 3);
    let mut first = Halving::begin(d(10.0), true);
    assert_eq!(first.judge::<Machine>(d(1e9), false), HalvingVerdict::Accept);
    let mut stuck = Halving::begin(d(10.0), true);
    for _ in 0..100 {
        assert_eq!(stuck.judge::<Machine>(d(f64::INFINITY), false), HalvingVerdict::Halve);
    }
    assert_eq!(stuck.judge::<Machine>(d(f64::INFINITY), false), HalvingVerdict::GiveUp);
    let mid = half_way::<Machine>(&vector(&[4.0, 0.0]), &vector(&[2.0, 1.0]));
    assert_eq!(mid, vector(&[3.0, 0.5]));
}

#[test]
fn reweighting_never_converges_on_its_first_iteration() {
    let mut r = PirlsRun::begin(5, d(1e-9));
    r.advance::<Machine>(true, d(4.0), d(4.0));
    assert!(!r.converged && !r.stopped);
    r.advance::<Machine>(true, d(4.0), d(4.0));
    assert!(r.converged && r.stopped);
    let mut r = PirlsRun::begin(5, d(1e-9));
    r.advance::<Machine>(false, d(4.0), d(4.0));
    assert!(!r.converged && r.stopped);
    assert!(PirlsRun::begin(0, d(1e-9)).stopped);
}

#[test]
fn a_row_without_positive_curvature_has_the_fisher_weight() {
    let shape = |v1: f64| RowShape { variance: d(2.0), v1: d(v1), g1: d(0.5), g2: d(0.0) };
    let row = |newton: bool, v1: f64| {
        let (w, z) =
            irls_row::<Machine>(newton, d(3.0), d(1.0), d(0.25), d(1.5), shape(v1));
        (f(w), f(z))
    };
    let fisher = row(false, -10.0);
    assert!((fisher.0 - 1.5 / (2.0 * 0.25)).abs() < 1e-12);
    assert!((fisher.1 - (0.25 + 2.0 * 0.5)).abs() < 1e-12);
    assert_eq!(row(true, -10.0), fisher);
    assert_ne!(row(true, 0.2), row(false, 0.2));
}

#[test]
fn stagnation_ends_one_iteration_and_not_the_other() {
    let mut a = ArmijoRun::begin(ArmijoElfOpts::default());
    a.advance(Some(d(1.0)));
    assert!(!a.stopped);
    a.advance(None);
    assert!(a.converged && a.stopped && a.iter == 2);
    let mut o = OcatRun::begin(5, d(1e-6));
    o.advance(None);
    assert!(!o.converged && !o.stopped);
    o.advance(Some(d(1e-9)));
    assert!(o.converged && o.stopped);
}

#[test]
fn pairs_of_shape_parameters_have_columns_of_their_own() {
    let mut seen = vec![];
    for a in 0..4 {
        for b in a..4 {
            seen.push(shape_pair_index(a, b, 4));
        }
    }
    assert_eq!(seen, (0..10).collect::<Vec<usize>>());
}

#[test]
fn the_first_of_the_largest_entries() {
    assert_eq!(first_largest(&vector(&[1.0, -7.0, 7.0, 2.0])), 1);
    assert_eq!(first_largest(&vector(&[0.0])), 0);
}

#[test]
fn a_block_replaces_only_itself() {
    let h = matrix(&[&[1.0, 2.0, 3.0], &[2.0, 4.0, 5.0], &[3.0, 5.0, 6.0]]);
    let r = with_block(&h, 1, &matrix(&[&[7.0, 8.0], &[8.0, 9.0]]));
    assert_eq!(
        plain(&r),
        vec![vec![1.0, 2.0, 3.0], vec![2.0, 7.0, 8.0], vec![3.0, 8.0, 9.0]]
    );
}

#[test]
fn hessian_of_two_terms_is_symmetric_and_exact() {
    let s_list = vec![
        matrix(&[&[1.0, 0.0], &[0.0, 0.0]]),
        matrix(&[&[0.0, 0.0], &[0.0, 1.0]]),
    ];
    let x = matrix(&[&[1.0, 0.0], &[0.0, 1.0]]);
    let w = vector(&[1.0, 1.0]);
    let lambda = [2.0_f64, 3.0];
    let z = [6.0_f64, 8.0];
    let beta: Vec<f64> = (0..2).map(|i| z[i] / (1.0 + lambda[i])).collect();
    let a_inv = matrix(&[&[1.0 / 3.0, 0.0], &[0.0, 0.25]]);
    let b = vector(&beta);
    let xtwx = build_xtwx::<Machine>(&x, &w);
    assert_eq!(plain(&xtwx), vec![vec![1.0, 0.0], vec![0.0, 1.0]]);
    let dev = compute_dev_grad_beta_working_rss::<Machine>(&x, &w, &vector(&z), &b);
    for i in 0..2 {
        assert!((f(dev[i]) + 2.0 * (z[i] - beta[i])).abs() < 1e-12);
    }
    let h = plain(&hess_ift_rho::<Machine>(&HessIftCtx {
        s_list: &s_list,
        lambda: &vector(&lambda),
        beta: &b,
        a_inv: &a_inv,
        xtwx: &xtwx,
        sigma2: d(2.0),
        dev_grad_beta: &dev,
    }));
    assert_eq!(h[0][1], h[1][0]);
    assert!(h[0][1].abs() < 1e-12);
    for i in 0..2 {
        let l = lambda[i];
        let fit = z[i] * z[i] * l * (1.0 - l) / (1.0 + l).powi(3) / 4.0;
        let det = 0.5 * l / (1.0 + l).powi(2);
        assert!((h[i][i] - fit - det).abs() < 1e-12, "{} {}", h[i][i], fit + det);
    }
}
