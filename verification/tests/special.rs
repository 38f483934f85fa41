use gamrs::arith::Arithmetic;
use gamrs::double::{lit, Double};
use gamrs::special as s;
use gamrs::special::{
    digamma as digamma_bits, log_gamma as log_gamma_bits, trigamma as trigamma_bits,
    tweedie_log_w as tweedie_log_w_bits, tweedie_series as tweedie_series_bits,
};

struct Machine;

fn d(x: f64) -> Double {
    if x.is_nan() {
        Double::from_bits(f64::NAN.to_bits())
    } else {
        Double::from_bits(x.to_bits())
    }
}

fn f(x: Double) -> f64 {
    f64::from_bits(x.bits)
}

impl Arithmetic for Machine {
    fn plus(a: Double, b: Double) -> Double {
        d(f(a) + f(b))
    }
    fn minus(a: Double, b: Double) -> Double {
        d(f(a) - f(b))
    }
    fn times(a: Double, b: Double) -> Double {
        d(f(a) * f(b))
    }
    fn over(a: Double, b: Double) -> Double {
        d(f(a) / f(b))
    }
    fn power(a: Double, b: Double) -> Double {
        d(f(a).powf(f(b)))
    }
    fn root(a: Double) -> Double {
        d(f(a).sqrt())
    }
    fn exp(a: Double) -> Double {
        d(f(a).exp())
    }
    fn ln(a: Double) -> Double {
        d(f(a).ln())
    }
    fn sin(a: Double) -> Double {
        d(f(a).sin())
    }
    fn count(n: usize) -> Double {
        d(n as f64)
    }
    fn whole(n: i64) -> Double {
        d(n as f64)
    }
    fn natural(n: u64) -> Double {
        d(n as f64)
    }
    fn floor_int(a: Double) -> i64 {
        f(a).floor() as i64
    }
    fn round_int(a: Double) -> i64 {
        f(a).round() as i64
    }
    fn shown(a: Double) -> String {
        format!("{}", f(a))
    }
}


fn log_gamma(x: f64) -> f64 {
    f(log_gamma_bits::<Machine>(d(x)))
}

fn digamma(x: f64) -> f64 {
    f(digamma_bits::<Machine>(d(x)))
}

fn trigamma(x: f64) -> f64 {
    f(trigamma_bits::<Machine>(d(x)))
}

fn tweedie_log_w(y: f64, phi: f64, p: f64) -> f64 {
    f(tweedie_log_w_bits::<Machine>(d(y), d(phi), d(p)))
}

fn tweedie_series(y: &[f64], phi: f64, p: f64) -> (Vec<f64>, Vec<f64>, Vec<f64>, Vec<f64>) {
    let ys: Vec<Double> = y.iter().map(|&v| d(v)).collect();
    let (a, b, c, e) = tweedie_series_bits::<Machine>(&ys, d(phi), d(p));
    let plain = |v: Vec<Double>| v.into_iter().map(f).collect::<Vec<f64>>();
    (plain(a), plain(b), plain(c), plain(e))
}

#[test]
fn log_gamma_known_values() {
    assert!((log_gamma(1.0) - 0.0).abs() < 1e-12);
    assert!((log_gamma(2.0) - 0.0).abs() < 1e-12);
    assert!((log_gamma(3.0) - 2.0_f64.ln()).abs() < 1e-12);
    assert!((log_gamma(5.0) - 24.0_f64.ln()).abs() < 1e-12);
}

#[test]
fn log_gamma_reflects_below_one_half() {
    let root_pi = std::f64::consts::PI.sqrt();
    assert!((log_gamma(0.5) - root_pi.ln()).abs() < 1e-12);
    assert!((log_gamma(0.25) - 3.625_609_908_221_908_3_f64.ln()).abs() < 1e-12);
}

#[test]
fn tweedie_series_log_w_matches_scalar() {
    let ys = [0.0_f64, 0.3, 1.2, 5.0, 12.5];
    for &phi in &[0.5_f64, 1.0, 2.0] {
        for &p in &[1.3_f64, 1.5, 1.7] {
            let (lw, _, _, _) = tweedie_series(&ys, phi, p);
            for (i, &yi) in ys.iter().enumerate() {
                let want = tweedie_log_w(yi, phi, p);
                assert!(
                    (lw[i] - want).abs() < 1e-9,
                    "y={yi} phi={phi} p={p}: series={} scalar={}",
                    lw[i],
                    want,
                );
            }
        }
    }
}

#[test]
fn tweedie_series_dlog_w_drho_matches_fd() {
    let ys = [0.3_f64, 1.2, 5.0, 12.5];
    for &phi in &[0.5_f64, 1.0, 2.0] {
        for &p in &[1.3_f64, 1.5, 1.7] {
            let rho = phi.ln();
            let h = 1e-5;
            let phi_plus = (rho + h).exp();
            let phi_minus = (rho - h).exp();
            let (lw_p, _, _, _) = tweedie_series(&ys, phi_plus, p);
            let (lw_m, _, _, _) = tweedie_series(&ys, phi_minus, p);
            let (_, dr, _, _) = tweedie_series(&ys, phi, p);
            for i in 0..ys.len() {
                let fd = (lw_p[i] - lw_m[i]) / (2.0 * h);
                let rel = (dr[i] - fd).abs() / (fd.abs() + 1.0);
                assert!(
                    rel < 1e-5,
                    "y={} phi={} p={}: analytic={} fd={}",
                    ys[i],
                    phi,
                    p,
                    dr[i],
                    fd,
                );
            }
        }
    }
}

#[test]
fn tweedie_series_dlog_w_dp_matches_fd() {
    let ys = [0.3_f64, 1.2, 5.0, 12.5];
    for &phi in &[0.5_f64, 1.0, 2.0] {
        for &p in &[1.3_f64, 1.5, 1.7] {
            let h = 1e-5;
            let (lw_p, _, _, _) = tweedie_series(&ys, phi, p + h);
            let (lw_m, _, _, _) = tweedie_series(&ys, phi, p - h);
            let (_, _, _, dp) = tweedie_series(&ys, phi, p);
            for i in 0..ys.len() {
                let fd = (lw_p[i] - lw_m[i]) / (2.0 * h);
                let rel = (dp[i] - fd).abs() / (fd.abs() + 1.0);
                assert!(
                    rel < 1e-4,
                    "y={} phi={} p={}: analytic={} fd={}",
                    ys[i],
                    phi,
                    p,
                    dp[i],
                    fd,
                );
            }
        }
    }
}

#[test]
fn tweedie_series_second_derivative_matches_fd() {
    let ys = [0.3_f64, 1.2, 5.0, 12.5];
    for &phi in &[0.5_f64, 1.0, 2.0] {
        for &p in &[1.3_f64, 1.5, 1.7] {
            let h = 1e-5;
            let (_, up, _, _) = tweedie_series(&ys, (phi.ln() + h).exp(), p);
            let (_, down, _, _) = tweedie_series(&ys, (phi.ln() - h).exp(), p);
            let (_, _, d2, _) = tweedie_series(&ys, phi, p);
            for i in 0..ys.len() {
                let fd = (up[i] - down[i]) / (2.0 * h);
                assert!(
                    (d2[i] - fd).abs() / (fd.abs() + 1.0) < 1e-5,
                    "y={} phi={phi} p={p}: analytic={} fd={fd}",
                    ys[i],
                    d2[i],
                );
            }
        }
    }
}

#[test]
fn the_two_sums_agree_to_the_last_bit() {
    let ys = [0.3_f64, 1.2, 5.0, 12.5];
    for &phi in &[0.5_f64, 1.0, 2.0] {
        for &p in &[1.3_f64, 1.5, 1.7] {
            let (lw, _, _, _) = tweedie_series(&ys, phi, p);
            for (i, &yi) in ys.iter().enumerate() {
                assert_eq!(lw[i], tweedie_log_w(yi, phi, p));
            }
        }
    }
}

#[test]
fn there_is_no_series_at_zero_nor_outside_the_powers() {
    let (a, b, c, e) = tweedie_series(&[0.0, -1.0], 1.0, 1.5);
    for v in [a, b, c, e] {
        assert_eq!(v, vec![0.0, 0.0]);
    }
    assert_eq!(tweedie_log_w(0.0, 1.0, 1.5), 0.0);
    assert_eq!(tweedie_log_w(3.0, 1.0, 1.0), 0.0);
    assert_eq!(tweedie_log_w(3.0, 1.0, 2.0), 0.0);
}

#[test]
fn digamma_matches_fd_of_log_gamma() {
    let h = 1e-5;
    for &x in &[0.5, 1.0, 2.5, 5.0, 10.0, 100.0] {
        let analytic = digamma(x);
        let fd = (log_gamma(x + h) - log_gamma(x - h)) / (2.0 * h);
        assert!((analytic - fd).abs() < 1e-7, "x={x}: analytic={analytic} fd={fd}");
    }
}

#[test]
fn digamma_is_good_to_twelve_digits() {
    let gamma = 0.577_215_664_901_532_9;
    assert!((digamma(1.0) + gamma).abs() < 1e-12);
    assert!((digamma(2.0) - (1.0 - gamma)).abs() < 1e-12);
    assert!((digamma(0.5) + gamma + 2.0 * 2.0_f64.ln()).abs() < 1e-12);
    assert!((digamma(10.0) - 2.251_752_589_066_721).abs() < 1e-12);
}

#[test]
fn trigamma_matches_fd_of_digamma() {
    let h = 1e-5;
    for &x in &[0.6, 1.3, 2.5, 5.5, 10.0, 100.0] {
        let fd = (digamma(x + h) - digamma(x - h)) / (2.0 * h);
        assert!((trigamma(x) - fd).abs() < 1e-6, "x={x}: {} {fd}", trigamma(x));
    }
    let basel = std::f64::consts::PI * std::f64::consts::PI / 6.0;
    assert!((trigamma(1.0) - basel).abs() < 1e-8);
}

#[test]
fn constants_hold_the_bits_of_their_numbers() {
    let pairs: [(u64, f64); 19] = [
        (s::LANCZOS_0, 0.999_999_999_999_809_9),
        (s::LANCZOS_1, 676.520_368_121_885_1),
        (s::LANCZOS_2, -1_259.139_216_722_402_8),
        (s::LANCZOS_3, 771.323_428_777_653_1),
        (s::LANCZOS_4, -176.615_029_162_140_6),
        (s::LANCZOS_5, 12.507_343_278_686_905),
        (s::LANCZOS_6, -0.138_571_095_265_720_12),
        (s::LANCZOS_7, 9.984_369_578_019_572e-6),
        (s::LANCZOS_8, 1.505_632_735_149_311_6e-7),
        (s::SIX, 6.0),
        (s::SEVEN, 7.0),
        (s::TWELVE, 12.0),
        (s::FORTY_TWO, 42.0),
        (s::C_120, 120.0),
        (s::C_132, 132.0),
        (s::C_691_32760, 691.0 / 32760.0),
        (s::C_3617_8160, 3617.0 / 8160.0),
        (s::C_240, 240.0),
        (s::C_252, 252.0),
    ];
    for (bits, value) in pairs {
        assert_eq!(f(lit(bits)), value);
    }
}
