use gamrs::arith::Arithmetic;
use gamrs::double::{self as bits, half, inf_norm, lit, one, two, zero, Double};
use gamrs::error::{map_err, GamrsError, Raised};
use gamrs::outer::{
    clear_algorithm_override, clear_tuning_override, resolve_tuning, resolved_algorithm,
    set_algorithm_override, set_tuning_override, NewtonOpts, OuterAlgorithm, OuterTuning, Overrides,
};
use gamrs::profile::{dump, reset, scoped, Buckets};
use gamrs::python::terms::{build_term_specs, cubic_terms, Elem, Item, TermError, TermSpec};
use gamrs::python::{
    family_choice, family_name, fit, fit_additive, fit_dispatch_design, predict_scale,
    set_outer_tuning_override, shift_intercept, term_col_ranges, AdditiveError, DesignKind,
    FamilyArgs, FamilyChoice, FamilyName, PredictScale,
};
use gamrs::stats::{FitStats, Quotient};
use gamrs::text::{decimal_text, join2, join3, same_text};

struct Machine;

fn d(x: f64) -> Double {
    if x.is_nan() {
        Double::from_bits(f64::NAN.to_bits())
    } else {
        Double::from_bits(x.to_bits())
    }
}

fn f(x: Double) -> f64 {
    f64::from_bits(x.bits)
}

impl Arithmetic for Machine {
    fn plus(a: Double, b: Double) -> Double {
        d(f(a) + f(b))
    }
    fn minus(a: Double, b: Double) -> Double {
        d(f(a) - f(b))
    }
    fn times(a: Double, b: Double) -> Double {
        d(f(a) * f(b))
    }
    fn over(a: Double, b: Double) -> Double {
        d(f(a) / f(b))
    }
    fn power(a: Double, b: Double) -> Double {
        d(f(a).powf(f(b)))
    }
    fn root(a: Double) -> Double {
        d(f(a).sqrt())
    }
    fn exp(a: Double) -> Double {
        d(f(a).exp())
    }
    fn ln(a: Double) -> Double {
        d(f(a).ln())
    }
    fn sin(a: Double) -> Double {
        d(f(a).sin())
    }
    fn count(n: usize) -> Double {
        d(n as f64)
    }
    fn whole(n: i64) -> Double {
        d(n as f64)
    }
    fn natural(n: u64) -> Double {
        d(n as f64)
    }
    fn floor_int(a: Double) -> i64 {
        f(a).floor() as i64
    }
    fn round_int(a: Double) -> i64 {
        f(a).round() as i64
    }
    fn shown(a: Double) -> String {
        format!("{}", f(a))
    }
}


#[test]
fn constants_hold_the_bits_of_doubles() {
    let pairs: [(u64, f64); 26] = [
        (bits::MINUS_TWO, -2.0),
        (bits::MINUS_HALF, -0.5),
        (bits::FIFTY, 50.0),
        (bits::THIRTY, 30.0),
        (bits::E_M300, 1e-300),
        (bits::E_M30, 1e-30),
        (bits::E_M20, 1e-20),
        (bits::E_M12, 1e-12),
        (bits::E_M10, 1e-10),
        (bits::E_M9, 1e-9),
        (bits::E_M8, 1e-8),
        (bits::E_M7, 1e-7),
        (bits::E_M6, 1e-6),
        (bits::E_M5, 1e-5),
        (bits::E_M4, 1e-4),
        (bits::E_M3, 1e-3),
        (bits::TENTH, 0.1),
        (bits::SEVEN_TENTHS, 0.7),
        (bits::THREE_HALVES, 1.5),
        (bits::THREE, 3.0),
        (bits::FOUR, 4.0),
        (bits::FIVE, 5.0),
        (bits::TEN, 10.0),
        (bits::E_7, 1e7),
        (bits::E_12, 1e12),
        (bits::PI, std::f64::consts::PI),
    ];
    for (b, x) in pairs {
        assert_eq!(f(lit(b)), x);
    }
    assert_eq!(f(lit(bits::EPSILON)), f64::EPSILON);
    assert_eq!(f(lit(bits::MIN_POSITIVE)), f64::MIN_POSITIVE);
    assert_eq!(f(lit(bits::INF_BITS)), f64::INFINITY);
    assert!(f(lit(bits::NAN_BITS)).is_nan());
    assert_eq!([f(zero()), f(one()), f(half()), f(two())], [0.0, 1.0, 0.5, 2.0]);
}

/// Numbers of every sort, both signs.
fn samples() -> Vec<f64> {
    let mut v = vec![
        0.0,
        5e-324,
        f64::MIN_POSITIVE,
        1e-12,
        0.5,
        1.0,
        1.0 + f64::EPSILON,
        2.0,
        1e12,
        f64::MAX,
        f64::INFINITY,
    ];
    let mut neg: Vec<f64> = v.iter().map(|x| -x).collect();
    v.append(&mut neg);
    v.push(f64::NAN);
    v
}

#[test]
fn comparisons_are_those_of_doubles() {
    for &x in &samples() {
        assert_eq!(d(x).is_nan(), x.is_nan());
        assert_eq!(d(x).is_finite(), x.is_finite());
        assert_eq!(f(d(x).abs()).to_bits(), x.abs().to_bits());
        if !x.is_nan() {
            assert_eq!(f(d(x).neg()).to_bits(), (-x).to_bits());
        }
        for &y in &samples() {
            assert_eq!(d(x).lt(d(y)), x < y, "{x} < {y}");
            assert_eq!(d(x).le(d(y)), x <= y, "{x} <= {y}");
            assert_eq!(d(x).num_eq(d(y)), x == y, "{x} == {y}");
            let (hi, lo) = (f(d(x).max(d(y))), f(d(x).min(d(y))));
            assert!(hi == x.max(y) || (hi.is_nan() && x.is_nan() && y.is_nan()));
            assert!(lo == x.min(y) || (lo.is_nan() && x.is_nan() && y.is_nan()));
            if x <= y {
                for &z in &samples() {
                    let c = f(d(z).clamp(d(x), d(y)));
                    assert!(c == z.clamp(x, y) || (c.is_nan() && z.is_nan()));
                }
            }
        }
    }
}

#[test]
fn norm_is_the_largest_absolute_component() {
    assert_eq!(f(inf_norm(&vec![d(1.0), d(-3.0), d(2.0)])), 3.0);
    assert_eq!(f(inf_norm(&vec![])), 0.0);
}

#[test]
fn numbers_and_texts() {
    for n in [0usize, 7, 10, 42, 100, 999, usize::MAX] {
        assert_eq!(decimal_text(n), format!("{n}"));
    }
    assert_eq!(join2("a", "b"), "ab");
    assert_eq!(join3("a", "", "c"), "ac");
    assert!(same_text("te", "te") && !same_text("te", "ti") && !same_text("t", "te"));
}

#[test]
fn errors_become_exceptions() {
    match map_err(GamrsError::InvalidParameter("bad".to_string()), "") {
        Raised::ValueError(m) => assert_eq!(m, "bad"),
        other => panic!("{other:?}"),
    }
    match map_err(GamrsError::SingularSystem("LU failed: 3".to_string()), "") {
        Raised::RuntimeError(m) => assert_eq!(m, "singular system: LU failed: 3"),
        other => panic!("{other:?}"),
    }
    let e = GamrsError::NotConverged { iters: 3, grad_norm: d(0.5) };
    assert!(e.message().is_none());
    match map_err(e, "not converged after 3") {
        Raised::RuntimeError(m) => assert_eq!(m, "not converged after 3"),
        other => panic!("{other:?}"),
    }
    let labelled = GamrsError::SingularSystem("x".to_string()).label_singular("outer: ");
    assert_eq!(labelled.message().unwrap(), "outer: x");
    let passed = GamrsError::InvalidParameter("y".to_string()).label_singular("outer: ");
    assert_eq!(passed.message().unwrap(), "y");
}

#[test]
fn counters_count_and_reset() {
    let mut s = FitStats::new();
    s.bump_outer();
    s.bump_line_search_trial();
    s.bump_line_search_trial();
    s.bump_no_refresh_attempt();
    s.bump_no_refresh_attempt();
    s.bump_no_refresh_attempt();
    s.bump_no_refresh_hit();
    s.record_pirls_call(7);
    s.record_pirls_call(4);
    let n = s.snapshot();
    assert_eq!(n.outer_iterations, 1);
    assert_eq!(n.line_search_trials, 2);
    assert_eq!(n.no_refresh_attempts, 3);
    assert_eq!(n.no_refresh_hits, 1);
    assert_eq!(n.inner_pirls_calls, 2);
    assert_eq!(n.inner_pirls_iterations_total, 11);
    assert_eq!(n.pirls_iters_per_call(), Quotient { num: 11, den: 2 });
    assert_eq!(n.no_refresh_hit_rate(), Quotient { num: 1, den: 3 });
    assert_eq!(
        n.summary("5.5", "33"),
        "outer=1 ls_trials=2 pirls_calls=2 pirls_iters=11 (≈5.5/call) no_refresh=1/3 (33%)"
    );
    s.reset();
    let n = s.snapshot();
    assert_eq!(n, FitStats::new().snapshot());
    assert_eq!(n.pirls_iters_per_call(), Quotient { num: 0, den: 1 });
    assert_eq!(n.no_refresh_hit_rate(), Quotient { num: 0, den: 1 });
    s.record_pirls_call(usize::MAX);
    s.record_pirls_call(2);
    assert_eq!(s.snapshot().inner_pirls_iterations_total, 1);
}

#[test]
fn phases_are_reported_by_time() {
    let mut b = Buckets::new();
    scoped("solve").stop(5, &mut b);
    scoped("score").stop(20, &mut b);
    scoped("build").stop(5, &mut b);
    scoped("solve").stop(1, &mut b);
    let rows = dump(&b);
    let shown: Vec<(String, u64, u64)> =
        rows.iter().map(|r| (r.name.clone(), r.count, r.ns)).collect();
    assert_eq!(
        shown,
        vec![
            ("score".to_string(), 1, 20),
            ("solve".to_string(), 2, 6),
            ("build".to_string(), 1, 5),
        ]
    );
    b.record("tie".to_string(), 6);
    let names: Vec<String> = dump(&b).iter().map(|r| r.name.clone()).collect();
    assert_eq!(names, ["score", "solve", "tie", "build"]);
    reset(&mut b);
    assert!(dump(&b).is_empty());
}

#[test]
fn tuning_is_the_family_s_unless_overridden() {
    let family = OuterTuning { max_iters: 17, ..OuterTuning::default() };
    let mut o = Overrides::new();
    assert_eq!(resolve_tuning(&o, family), family);
    assert_eq!(resolved_algorithm(&o), OuterAlgorithm::Newton);
    let own = OuterTuning { max_iters: 3, ..OuterTuning::default() };
    set_tuning_override(&mut o, own);
    set_algorithm_override(&mut o, OuterAlgorithm::FellnerSchall);
    assert_eq!(resolve_tuning(&o, family), own);
    assert_eq!(resolved_algorithm(&o), OuterAlgorithm::FellnerSchall);
    clear_tuning_override(&mut o);
    assert_eq!(resolve_tuning(&o, family), family);
    assert_eq!(resolved_algorithm(&o), OuterAlgorithm::FellnerSchall);
    clear_algorithm_override(&mut o);
    assert_eq!(resolved_algorithm(&o), OuterAlgorithm::Newton);

    let n = NewtonOpts::default();
    assert_eq!(n.max_iters, 200);
    assert_eq!(
        [f(n.grad_tol), f(n.reml_tol), f(n.step_min), f(n.hess_floor), f(n.max_step)],
        [1e-7, 1e-7, 1e-3, 1e-8, 5.0]
    );
}

#[test]
fn tolerances_are_overridden_one_by_one() {
    let family = OuterTuning { max_iters: 17, grad_tol: d(0.25), ..OuterTuning::default() };
    let mut o = Overrides::new();
    set_outer_tuning_override(&mut o, Some(d(1e-3)), None);
    let t = resolve_tuning(&o, family);
    assert_eq!((f(t.grad_tol), f(t.reml_tol), t.max_iters), (1e-3, 1e-7, 200));
    set_outer_tuning_override(&mut o, None, Some(d(1e-4)));
    let t = resolve_tuning(&o, family);
    assert_eq!((f(t.grad_tol), f(t.reml_tol)), (1e-7, 1e-4));
    set_outer_tuning_override(&mut o, None, None);
    assert_eq!(resolve_tuning(&o, family), family);
}

#[test]
fn scales_and_designs_by_name() {
    assert_eq!(predict_scale("link").unwrap(), PredictScale::Link);
    assert_eq!(predict_scale("response").unwrap(), PredictScale::Response);
    assert_eq!(
        predict_scale("lo\"g").unwrap_err().message().unwrap(),
        "scale must be 'link' or 'response', got \"lo\\\"g\""
    );
    assert_eq!(fit_dispatch_design("cr", 9).unwrap(), DesignKind::Cr { k: 9 });
    assert_eq!(fit_dispatch_design("re", 9).unwrap(), DesignKind::Re);
    assert_eq!(fit_dispatch_design("cr_stable", 9).unwrap(), DesignKind::CrStable { k: 9 });
    assert_eq!(
        fit_dispatch_design("tp", 9).unwrap_err().message().unwrap(),
        "design must be 'cr', 're', or 'cr_stable'; got \"tp\""
    );
}

fn no_args() -> FamilyArgs {
    FamilyArgs {
        theta: None,
        nu: None,
        sigma2: None,
        tweedie_p: None,
        tweedie_phi: None,
        r: None,
        tau: None,
        elf_sigma: None,
        elf_lambda: None,
    }
}

fn chosen(name: &str, a: FamilyArgs) -> FamilyChoice {
    family_choice::<Machine>(name, a).unwrap()
}

fn refused(name: &str, a: FamilyArgs) -> String {
    family_choice::<Machine>(name, a).unwrap_err().message().unwrap()
}

#[test]
fn families_by_name() {
    let names = [
        ("gaussian", FamilyName::Gaussian),
        ("bernoulli", FamilyName::Bernoulli),
        ("binomial", FamilyName::Bernoulli),
        ("poisson", FamilyName::Poisson),
        ("quasipoisson", FamilyName::QuasiPoisson),
        ("quasibinomial", FamilyName::QuasiBinomial),
        ("Gamma", FamilyName::GammaInverse),
        ("gamma", FamilyName::GammaLog),
        ("inverse_gaussian", FamilyName::InverseGaussian),
        ("inverse.gaussian", FamilyName::InverseGaussian),
    ];
    for (name, family) in names {
        assert_eq!(family_name(name), Some(family));
        assert_eq!(chosen(name, no_args()), FamilyChoice::Plain(family));
    }
    for (name, family) in [
        ("negbin", FamilyName::NegBin),
        ("nb", FamilyName::NegBin),
        ("tdist", FamilyName::TDist),
        ("scat", FamilyName::TDist),
        ("tweedie", FamilyName::Tweedie),
        ("tw", FamilyName::Tweedie),
        ("ocat", FamilyName::Ocat),
        ("elf", FamilyName::Elf),
        ("quantile", FamilyName::Elf),
    ] {
        assert_eq!(family_name(name), Some(family));
    }
    assert_eq!(family_name("GAUSSIAN"), None);
    assert_eq!(
        refused("beta", no_args()),
        "unknown family \"beta\"; supported: gaussian, bernoulli, poisson, quasipoisson, \
         quasibinomial, gamma, Gamma, inverse_gaussian, negbin, tdist, tweedie, ocat, elf"
    );
}

#[test]
fn family_parameters_and_their_defaults() {
    assert_eq!(chosen("nb", no_args()), FamilyChoice::NegBin { theta: d(2.0) });
    let a = FamilyArgs { theta: Some(d(0.5)), ..no_args() };
    assert_eq!(chosen("negbin", a), FamilyChoice::NegBin { theta: d(0.5) });
    let a = FamilyArgs { theta: Some(d(-1.5)), ..no_args() };
    assert_eq!(refused("negbin", a), "negbin theta must be > 0; got theta=-1.5");
    let a = FamilyArgs { theta: Some(d(f64::NAN)), ..no_args() };
    assert!(matches!(chosen("negbin", a), FamilyChoice::NegBin { .. }));

    assert_eq!(chosen("scat", no_args()), FamilyChoice::TDist { nu: d(5.0), sigma2: d(1.0) });

    assert_eq!(
        chosen("tw", no_args()),
        FamilyChoice::Tweedie { p: d(1.5), phi: d(1.0), fixed: false }
    );
    let a = FamilyArgs { tweedie_p: Some(d(1.2)), tweedie_phi: Some(d(3.0)), ..no_args() };
    assert_eq!(chosen("tw", a), FamilyChoice::Tweedie { p: d(1.2), phi: d(3.0), fixed: true });
    for p in [1.0, 2.0, f64::NAN] {
        let a = FamilyArgs { tweedie_p: Some(d(p)), ..no_args() };
        assert_eq!(
            refused("tweedie", a),
            format!("tweedie fixed p must be in (1, 2); got tweedie_p={p}")
        );
    }

    let a = FamilyArgs { r: Some(5), ..no_args() };
    assert_eq!(chosen("ocat", a), FamilyChoice::Ocat { n_cats: 5, thresholds: 3 });
    assert_eq!(
        refused("ocat", no_args()),
        "family='ocat' requires r=K (number of ordered categories, K >= 3)"
    );
    let a = FamilyArgs { r: Some(2), ..no_args() };
    assert_eq!(refused("ocat", a), "ocat requires r >= 3, got r=2");

    assert_eq!(
        chosen("elf", no_args()),
        FamilyChoice::Elf { tau: d(0.5), sigma: d(0.0), lambda: d(0.0) }
    );
    for tau in [0.0, 1.0, 1.25] {
        let a = FamilyArgs { tau: Some(d(tau)), ..no_args() };
        assert_eq!(
            refused("quantile", a),
            format!("elf/quantile tau must be in (0, 1); got tau={tau}")
        );
    }
}

#[test]
fn the_family_is_judged_before_the_design_and_after_the_terms() {
    let (c, k) = fit::<Machine>("poisson", no_args(), "re", 10).unwrap();
    assert_eq!((c, k), (FamilyChoice::Plain(FamilyName::Poisson), DesignKind::Re));
    let e = fit::<Machine>("beta", no_args(), "tp", 10).unwrap_err().message().unwrap();
    assert!(e.starts_with("unknown family"));
    let e = fit::<Machine>("poisson", no_args(), "tp", 10).unwrap_err().message().unwrap();
    assert!(e.starts_with("design must be"));

    match fit_additive::<Machine>("beta", no_args(), &vec![]) {
        Err(AdditiveError::Term(TermError::Value(m))) => {
            assert_eq!(m, "fit_additive: terms list must be non-empty")
        }
        _ => panic!("terms are read first"),
    }
    match fit_additive::<Machine>("beta", no_args(), &vec![item(vec![Elem::Int(0), text("re")])]) {
        Err(AdditiveError::Family(e)) => assert!(e.message().unwrap().starts_with("unknown")),
        _ => panic!("the family is unknown"),
    }
    let (c, terms) = fit_additive::<Machine>(
        "gaussian",
        no_args(),
        &vec![item(vec![Elem::Int(3), text("re")])],
    )
    .unwrap();
    assert_eq!(c, FamilyChoice::Plain(FamilyName::Gaussian));
    assert!(matches!(terms[0], TermSpec::Re { col: 3 }));
}

fn item(v: Vec<Elem>) -> Item {
    Item::Tuple(v)
}

fn text(s: &str) -> Elem {
    Elem::Text(s.to_string())
}

fn tuple(v: &[usize]) -> Elem {
    Elem::Tuple(v.iter().map(|&i| Some(i)).collect())
}

fn read(v: Vec<Elem>) -> TermSpec {
    let mut t = build_term_specs(&vec![item(v)]).unwrap();
    t.pop().unwrap()
}

fn why(v: Vec<Elem>) -> String {
    match build_term_specs(&vec![item(vec![Elem::Int(0), text("re")]), item(v)]) {
        Err(TermError::Value(m)) => m,
        Err(TermError::NotText) => "not a text".to_string(),
        Err(TermError::NotInteger) => "not an integer".to_string(),
        Ok(_) => "fine".to_string(),
    }
}

#[test]
fn terms_of_one_column() {
    for basis in ["cr", "cr_stable"] {
        assert_eq!(
            why(vec![Elem::Int(2), text(basis)]),
            "fit_additive: term 1 k is required for basis 'cr' and 'cr_stable'"
        );
    }
    assert!(matches!(
        read(vec![Elem::Int(2), text("cr"), Elem::Int(6)]),
        TermSpec::Cr { col: 2, k: 6 }
    ));
    assert!(matches!(
        read(vec![Elem::Int(1), text("cr_stable"), Elem::Int(9)]),
        TermSpec::CrStable { col: 1, k: 9 }
    ));
    assert!(matches!(read(vec![Elem::Int(1), text("re"), Elem::Other]), TermSpec::Re { col: 1 }));
    assert_eq!(why(vec![Elem::Int(1), text("cr"), Elem::Other]), "not an integer");
    assert_eq!(why(vec![Elem::Int(1), Elem::Other]), "not a text");
    assert_eq!(
        why(vec![tuple(&[1]), text("cr")]),
        "fit_additive: univariate term 1 first element must be an integer column index"
    );
    assert_eq!(
        why(vec![Elem::Int(1), text("ps")]),
        "fit_additive: term 1 basis must be 'cr', 'cr_stable', 're', 'te', 'te_multi', 'ti', or \
         'tp'; got \"ps\""
    );
}

#[test]
fn terms_of_several_columns() {
    match read(vec![tuple(&[0, 4]), text("tp")]) {
        TermSpec::Tps { cols, k } => assert_eq!((cols, k), (vec![0, 4], 20)),
        _ => panic!(),
    }
    match read(vec![tuple(&[0, 4]), text("tp"), Elem::Int(12)]) {
        TermSpec::Tps { k, .. } => assert_eq!(k, 12),
        _ => panic!(),
    }
    match read(vec![tuple(&[0, 4, 2]), text("te_multi")]) {
        TermSpec::TeMulti { cols, ks } => assert_eq!((cols, ks), (vec![0, 4, 2], vec![5, 5, 5])),
        _ => panic!(),
    }
    match read(vec![tuple(&[3, 1]), text("ti"), tuple(&[4, 6])]) {
        TermSpec::Ti { cols, ks } => assert_eq!((cols, ks), (vec![3, 1], vec![4, 6])),
        _ => panic!(),
    }
    assert!(matches!(
        read(vec![tuple(&[3, 1]), text("te")]),
        TermSpec::Tensor { col_a: 3, col_b: 1, k_a: 10, k_b: 10 }
    ));
    assert!(matches!(
        read(vec![tuple(&[3, 1]), text("te"), tuple(&[7, 8])]),
        TermSpec::Tensor { col_a: 3, col_b: 1, k_a: 7, k_b: 8 }
    ));
}

#[test]
fn terms_that_are_not_understood() {
    let two_columns = |basis: &str, rest: Vec<Elem>| {
        let mut v = vec![tuple(&[0, 1]), text(basis)];
        v.extend(rest);
        why(v)
    };
    assert_eq!(
        why(vec![Elem::Int(0)]),
        "fit_additive: term 1 tuple must have at least 2 elements"
    );
    assert_eq!(
        why(vec![Elem::Int(0), text("tp")]),
        "fit_additive: tps term 1 first element must be a tuple of column indices"
    );
    assert_eq!(
        why(vec![tuple(&[0]), text("tp")]),
        "fit_additive: tps term 1 cols tuple must have at least 2 elements"
    );
    assert_eq!(two_columns("tp", vec![Elem::Other]), "not an integer");
    assert_eq!(
        why(vec![Elem::Int(0), text("ti")]),
        "fit_additive: term 1 first element must be a tuple of column indices"
    );
    assert_eq!(
        why(vec![tuple(&[0]), text("te_multi")]),
        "fit_additive: term 1 cols tuple must have at least 2 elements"
    );
    assert_eq!(
        two_columns("ti", vec![Elem::Int(5)]),
        "fit_additive: term 1 k must be a tuple of marginal basis dims"
    );
    assert_eq!(
        two_columns("ti", vec![tuple(&[5, 5, 5])]),
        "fit_additive: term 1 k tuple length (3) must match cols length (2)"
    );
    assert_eq!(
        two_columns("ti", vec![Elem::Tuple(vec![Some(5), None])]),
        "not an integer"
    );
    assert_eq!(
        why(vec![Elem::Int(0), text("te")]),
        "fit_additive: tensor term 1 first element must be a (col_a, col_b) tuple"
    );
    assert_eq!(
        why(vec![tuple(&[0, 1, 2]), text("te")]),
        "fit_additive: tensor term 1 cols tuple must have exactly 2 elements"
    );
    assert_eq!(
        two_columns("te", vec![Elem::Int(5)]),
        "fit_additive: tensor term 1 k must be a (k_a, k_b) tuple"
    );
    assert_eq!(
        two_columns("te", vec![tuple(&[5])]),
        "fit_additive: tensor term 1 k tuple must have exactly 2 elements"
    );
    match build_term_specs(&vec![Item::Other("7".to_string())]) {
        Err(TermError::Value(m)) => assert_eq!(m, "fit_additive: term 0 must be a tuple; got 7"),
        _ => panic!(),
    }
}

#[test]
fn columns_intercept_and_diagnostic_terms() {
    assert_eq!(term_col_ranges(None, 9), vec![(1, 9)]);
    assert_eq!(term_col_ranges(Some(&vec![(1, 4), (4, 9)]), 9), vec![(1, 4), (4, 9)]);
    let mut beta = vec![d(1.5), d(2.0)];
    shift_intercept::<Machine>(&mut beta, d(0.25));
    assert_eq!(beta, vec![d(1.75), d(2.0)]);
    let mut none: Vec<Double> = vec![];
    shift_intercept::<Machine>(&mut none, d(0.25));
    assert!(none.is_empty());
    let terms = cubic_terms(&vec![8, 5]);
    assert!(matches!(terms[0], TermSpec::Cr { col: 0, k: 8 }));
    assert!(matches!(terms[1], TermSpec::Cr { col: 1, k: 5 }));
}
