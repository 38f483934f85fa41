//! The rules at the Python surface: which names and arguments are understood, and
//! what is said of those that are not.

use vstd::prelude::*;

use crate::arith::Arithmetic;
use crate::double::{half, lit, one, two, zero, Double, FIVE, THREE_HALVES};
use crate::error::GamrsError;
use crate::inner::armijo::shows;
use crate::outer::{
    clear_tuning_override, default_tuning, set_tuning_override, OuterTuning, Overrides,
};
use crate::python::terms::{
    build_term_specs, term_of, terms_read, terms_refused, understood, Item, TermError,
    TermErrorView, TermSpec, TermView,
};
use crate::text::{decimal, decimal_text, join2, join3, same_text};

pub mod reml;
pub mod terms;

verus! {

/// The text of `s` in double quotes, with its special characters escaped, as the
/// `Debug` form of a string writes it.
pub uninterp spec fn quoted(s: Seq<char>) -> Seq<char>;

/// Writes the `Debug` form of a string (`impl Debug for str`): a text that depends
/// on the string alone.
#[verifier::external_body]
pub(crate) fn quote(s: &str) -> (r: String)
    ensures
        r@ == quoted(s@),
{
    format!("{:?}", s)
}

/// The scale of a prediction.
#[derive(Clone, Copy, Debug, PartialEq, Eq, Structural)]
pub enum PredictScale {
    /// Of the linear predictor.
    Link,
    /// Of the response.
    Response,
}

/// The scale of a name.
pub open spec fn scale_of(name: Seq<char>) -> Option<PredictScale> {
    if name == "link"@ {
        Some(PredictScale::Link)
    } else if name == "response"@ {
        Some(PredictScale::Response)
    } else {
        None
    }
}

/// The scale of a name; a name that is neither is refused.
pub fn predict_scale(name: &str) -> (r: Result<PredictScale, GamrsError>)
    ensures
        match r {
            Ok(s) => scale_of(name@) == Some(s),
            Err(e) => scale_of(name@) is None && (e matches GamrsError::InvalidParameter(m) && m@
                == "scale must be 'link' or 'response', got "@ + quoted(name@)),
        },
{
    if same_text(name, "link") {
        return Ok(PredictScale::Link);
    }
    if same_text(name, "response") {
        return Ok(PredictScale::Response);
    }
    let q: String = quote(name);
    Err(
        GamrsError::InvalidParameter(
            join2("scale must be 'link' or 'response', got ", q.as_str()),
        ),
    )
}

/// The design of a fit with one smooth.
#[derive(Clone, Copy, Debug, PartialEq, Eq, Structural)]
pub enum DesignKind {
    /// Cubic regression spline of dimension `k`.
    Cr {
        /// Dimension.
        k: usize,
    },
    /// Random effect.
    Re,
    /// Cubic regression spline in stable coordinates.
    CrStable {
        /// Dimension.
        k: usize,
    },
}

/// The design of a name.
pub open spec fn design_of(name: Seq<char>, k: usize) -> Option<DesignKind> {
    if name == "cr"@ {
        Some(DesignKind::Cr { k })
    } else if name == "re"@ {
        Some(DesignKind::Re)
    } else if name == "cr_stable"@ {
        Some(DesignKind::CrStable { k })
    } else {
        None
    }
}

/// The text that refuses a design.
pub open spec fn design_refusal(name: Seq<char>) -> Seq<char> {
    "design must be 'cr', 're', or 'cr_stable'; got "@ + quoted(name)
}

/// The design of a name; a name that is none is refused.
pub fn fit_dispatch_design(name: &str, k: usize) -> (r: Result<DesignKind, GamrsError>)
    ensures
        match r {
            Ok(d) => design_of(name@, k) == Some(d),
            Err(e) => design_of(name@, k) is None && (e matches GamrsError::InvalidParameter(m) && m@
                == design_refusal(name@)),
        },
{
    if same_text(name, "cr") {
        return Ok(DesignKind::Cr { k });
    }
    if same_text(name, "re") {
        return Ok(DesignKind::Re);
    }
    if same_text(name, "cr_stable") {
        return Ok(DesignKind::CrStable { k });
    }
    let q: String = quote(name);
    Err(
        GamrsError::InvalidParameter(
            join2("design must be 'cr', 're', or 'cr_stable'; got ", q.as_str()),
        ),
    )
}

/// The arguments that only some families look at.
#[derive(Clone, Copy, Debug)]
pub struct FamilyArgs {
    /// Size of the negative binomial.
    pub theta: Option<Double>,
    /// Degrees of freedom of the scaled t.
    pub nu: Option<Double>,
    /// Squared scale of the scaled t.
    pub sigma2: Option<Double>,
    /// Power of the Tweedie, if it is to be held fixed.
    pub tweedie_p: Option<Double>,
    /// Dispersion of the Tweedie.
    pub tweedie_phi: Option<Double>,
    /// Number of ordered categories.
    pub r: Option<usize>,
    /// Quantile.
    pub tau: Option<Double>,
    /// Scale of the quantile loss.
    pub elf_sigma: Option<Double>,
    /// Smoothness of the quantile loss.
    pub elf_lambda: Option<Double>,
}

/// A family by name.
#[derive(Clone, Copy, Debug, PartialEq, Eq, Structural)]
pub enum FamilyName {
    /// Gaussian, identity link.
    Gaussian,
    /// Bernoulli, logit link.
    Bernoulli,
    /// Poisson, log link.
    Poisson,
    /// Quasi-Poisson, log link.
    QuasiPoisson,
    /// Quasi-binomial, logit link.
    QuasiBinomial,
    /// Gamma, inverse link.
    GammaInverse,
    /// Gamma, log link.
    GammaLog,
    /// Inverse Gaussian, log link.
    InverseGaussian,
    /// Negative binomial, log link.
    NegBin,
    /// Scaled t, identity link.
    TDist,
    /// Tweedie, log link.
    Tweedie,
    /// Ordered categories.
    Ocat,
    /// Quantile.
    Elf,
}

/// The family of a name.
pub open spec fn family_name_of(name: Seq<char>) -> Option<FamilyName> {
    if name == "gaussian"@ {
        Some(FamilyName::Gaussian)
    } else if name == "bernoulli"@ || name == "binomial"@ {
        Some(FamilyName::Bernoulli)
    } else if name == "poisson"@ {
        Some(FamilyName::Poisson)
    } else if name == "quasipoisson"@ {
        Some(FamilyName::QuasiPoisson)
    } else if name == "quasibinomial"@ {
        Some(FamilyName::QuasiBinomial)
    } else if name == "Gamma"@ {
        Some(FamilyName::GammaInverse)
    } else if name == "gamma"@ {
        Some(FamilyName::GammaLog)
    } else if name == "inverse_gaussian"@ || name == "inverse.gaussian"@ {
        Some(FamilyName::InverseGaussian)
    } else if name == "negbin"@ || name == "nb"@ {
        Some(FamilyName::NegBin)
    } else if name == "tdist"@ || name == "scat"@ {
        Some(FamilyName::TDist)
    } else if name == "tweedie"@ || name == "tw"@ {
        Some(FamilyName::Tweedie)
    } else if name == "ocat"@ {
        Some(FamilyName::Ocat)
    } else if name == "elf"@ || name == "quantile"@ {
        Some(FamilyName::Elf)
    } else {
        None
    }
}

/// The family of a name.
pub fn family_name(name: &str) -> (r: Option<FamilyName>)
    ensures
        r == family_name_of(name@),
{
    if same_text(name, "gaussian") {
        return Some(FamilyName::Gaussian);
    }
    if same_text(name, "bernoulli") || same_text(name, "binomial") {
        return Some(FamilyName::Bernoulli);
    }
    if same_text(name, "poisson") {
        return Some(FamilyName::Poisson);
    }
    if same_text(name, "quasipoisson") {
        return Some(FamilyName::QuasiPoisson);
    }
    if same_text(name, "quasibinomial") {
        return Some(FamilyName::QuasiBinomial);
    }
    if same_text(name, "Gamma") {
        return Some(FamilyName::GammaInverse);
    }
    if same_text(name, "gamma") {
        return Some(FamilyName::GammaLog);
    }
    if same_text(name, "inverse_gaussian") || same_text(name, "inverse.gaussian") {
        return Some(FamilyName::InverseGaussian);
    }
    if same_text(name, "negbin") || same_text(name, "nb") {
        return Some(FamilyName::NegBin);
    }
    if same_text(name, "tdist") || same_text(name, "scat") {
        return Some(FamilyName::TDist);
    }
    if same_text(name, "tweedie") || same_text(name, "tw") {
        return Some(FamilyName::Tweedie);
    }
    if same_text(name, "ocat") {
        return Some(FamilyName::Ocat);
    }
    if same_text(name, "elf") || same_text(name, "quantile") {
        return Some(FamilyName::Elf);
    }
    None
}

/// A family with its parameters.
#[derive(Clone, Copy, Debug, PartialEq, Eq, Structural)]
pub enum FamilyChoice {
    /// A family without parameters.
    Plain(FamilyName),
    /// Negative binomial.
    NegBin {
        /// Size.
        theta: Double,
    },
    /// Scaled t.
    TDist {
        /// Degrees of freedom.
        nu: Double,
        /// Squared scale.
        sigma2: Double,
    },
    /// Tweedie.
    Tweedie {
        /// Power, or where to start it from.
        p: Double,
        /// Dispersion.
        phi: Double,
        /// The power is held.
        fixed: bool,
    },
    /// Ordered categories, with thresholds at zero.
    Ocat {
        /// Number of categories.
        n_cats: usize,
        /// Number of thresholds.
        thresholds: usize,
    },
    /// Quantile.
    Elf {
        /// Quantile.
        tau: Double,
        /// Scale.
        sigma: Double,
        /// Smoothness.
        lambda: Double,
    },
}

/// An argument, or its default.
pub open spec fn given_or(x: Option<Double>, default: Double) -> Double {
    match x {
        Some(v) => v,
        None => default,
    }
}

fn or_default(x: Option<Double>, default: Double) -> (r: Double)
    ensures
        r == given_or(x, default),
{
    match x {
        Some(v) => v,
        None => default,
    }
}

/// The family with its parameters, `None` where they are refused: a size that is
/// at most 0, a fixed power outside (1, 2), fewer than 3 categories or none
/// given, a quantile outside (0, 1).
pub open spec fn family_choice_of(f: FamilyName, a: FamilyArgs) -> Option<FamilyChoice> {
    match f {
        FamilyName::NegBin => {
            let theta = given_or(a.theta, two());
            if theta.at_most(zero()) {
                None
            } else {
                Some(FamilyChoice::NegBin { theta })
            }
        },
        FamilyName::TDist => Some(
            FamilyChoice::TDist {
                nu: given_or(a.nu, lit(FIVE)),
                sigma2: given_or(a.sigma2, one()),
            },
        ),
        FamilyName::Tweedie => {
            let phi = given_or(a.tweedie_phi, one());
            match a.tweedie_p {
                Some(p) => if one().below(p) && p.below(two()) {
                    Some(FamilyChoice::Tweedie { p, phi, fixed: true })
                } else {
                    None
                },
                None => Some(FamilyChoice::Tweedie { p: lit(THREE_HALVES), phi, fixed: false }),
            }
        },
        FamilyName::Ocat => match a.r {
            Some(r) => if r < 3 {
                None
            } else {
                Some(FamilyChoice::Ocat { n_cats: r, thresholds: (r - 2) as usize })
            },
            None => None,
        },
        FamilyName::Elf => {
            let tau = given_or(a.tau, half());
            if zero().below(tau) && tau.below(one()) {
                Some(
                    FamilyChoice::Elf {
                        tau,
                        sigma: given_or(a.elf_sigma, zero()),
                        lambda: given_or(a.elf_lambda, zero()),
                    },
                )
            } else {
                None
            }
        },
        other => Some(FamilyChoice::Plain(other)),
    }
}

/// The text that refuses a family's parameters.
pub open spec fn family_refusal<F: Arithmetic>(f: FamilyName, a: FamilyArgs, m: Seq<char>) -> bool {
    match f {
        FamilyName::NegBin => shows::<F>(
            "negbin theta must be > 0; got theta="@,
            given_or(a.theta, two()),
            m,
        ),
        FamilyName::Tweedie => shows::<F>(
            "tweedie fixed p must be in (1, 2); got tweedie_p="@,
            given_or(a.tweedie_p, zero()),
            m,
        ),
        FamilyName::Ocat => match a.r {
            Some(r) => m == "ocat requires r >= 3, got r="@ + decimal(r as nat),
            None => m == "family='ocat' requires r=K (number of ordered categories, K >= 3)"@,
        },
        FamilyName::Elf => shows::<F>(
            "elf/quantile tau must be in (0, 1); got tau="@,
            given_or(a.tau, half()),
            m,
        ),
        _ => false,
    }
}

/// The text that refuses a name.
pub open spec fn unknown_family(name: Seq<char>) -> Seq<char> {
    "unknown family "@ + quoted(name)
        + "; supported: gaussian, bernoulli, poisson, quasipoisson, quasibinomial, gamma, Gamma, inverse_gaussian, negbin, tdist, tweedie, ocat, elf"@
}

/// Why a name with its arguments is refused.
pub open spec fn family_error<F: Arithmetic>(name: Seq<char>, a: FamilyArgs, e: GamrsError) -> bool {
    e matches GamrsError::InvalidParameter(m) && match family_name_of(name) {
        Some(f) => family_choice_of(f, a) is None && family_refusal::<F>(f, a, m@),
        None => m@ == unknown_family(name),
    }
}

fn shown_after<F: Arithmetic>(head: &str, x: Double) -> (e: GamrsError)
    ensures
        e matches GamrsError::InvalidParameter(m) && shows::<F>(head@, x, m@),
{
    let t: String = F::shown(x);
    let m: String = join2(head, t.as_str());
    assert(shows::<F>(head@, x, m@));
    GamrsError::InvalidParameter(m)
}

/// The family of a name with its parameters.
pub fn family_choice<F: Arithmetic>(name: &str, a: FamilyArgs) -> (r: Result<FamilyChoice, GamrsError>)
    ensures
        match r {
            Ok(c) => family_name_of(name@) matches Some(f) && family_choice_of(f, a) == Some(c),
            Err(e) => family_error::<F>(name@, a, e),
        },
{
    match family_name(name) {
        Some(f) => match f {
            FamilyName::NegBin => {
                let theta: Double = or_default(a.theta, two());
                if theta.le(zero()) {
                    return Err(shown_after::<F>("negbin theta must be > 0; got theta=", theta));
                }
                Ok(FamilyChoice::NegBin { theta })
            },
            FamilyName::TDist => Ok(
                FamilyChoice::TDist {
                    nu: or_default(a.nu, lit(FIVE)),
                    sigma2: or_default(a.sigma2, one()),
                },
            ),
            FamilyName::Tweedie => {
                let phi: Double = or_default(a.tweedie_phi, one());
                match a.tweedie_p {
                    None => Ok(FamilyChoice::Tweedie { p: lit(THREE_HALVES), phi, fixed: false }),
                    Some(p) => {
                        if !(one().lt(p) && p.lt(two())) {
                            return Err(
                                shown_after::<F>(
                                    "tweedie fixed p must be in (1, 2); got tweedie_p=",
                                    p,
                                ),
                            );
                        }
                        Ok(FamilyChoice::Tweedie { p, phi, fixed: true })
                    },
                }
            },
            FamilyName::Ocat => match a.r {
                None => Err(
                    GamrsError::InvalidParameter(
                        "family='ocat' requires r=K (number of ordered categories, K >= 3)".to_owned(),
                    ),
                ),
                Some(n) => {
                    if n < 3 {
                        let t: String = decimal_text(n);
                        return Err(
                            GamrsError::InvalidParameter(
                                join2("ocat requires r >= 3, got r=", t.as_str()),
                            ),
                        );
                    }
                    Ok(FamilyChoice::Ocat { n_cats: n, thresholds: n - 2 })
                },
            },
            FamilyName::Elf => {
                let tau: Double = or_default(a.tau, half());
                if !(zero().lt(tau) && tau.lt(one())) {
                    return Err(
                        shown_after::<F>("elf/quantile tau must be in (0, 1); got tau=", tau),
                    );
                }
                Ok(
                    FamilyChoice::Elf {
                        tau,
                        sigma: or_default(a.elf_sigma, zero()),
                        lambda: or_default(a.elf_lambda, zero()),
                    },
                )
            },
            other => Ok(FamilyChoice::Plain(other)),
        },
        None => {
            let q: String = quote(name);
            Err(
                GamrsError::InvalidParameter(
                    join3(
                        "unknown family ",
                        q.as_str(),
                        "; supported: gaussian, bernoulli, poisson, quasipoisson, quasibinomial, gamma, Gamma, inverse_gaussian, negbin, tdist, tweedie, ocat, elf",
                    ),
                ),
            )
        },
    }
}

/// Family and design of a fit with one smooth. What is wrong with the family is
/// said first.
pub fn fit<F: Arithmetic>(name: &str, a: FamilyArgs, design: &str, k: usize) -> (r: Result<
    (FamilyChoice, DesignKind),
    GamrsError,
>)
    ensures
        match r {
            Ok(out) => family_name_of(name@) matches Some(f) && family_choice_of(f, a) == Some(out.0)
                && design_of(design@, k) == Some(out.1),
            Err(e) => family_error::<F>(name@, a, e) || (design_of(design@, k) is None && (
            family_name_of(name@) matches Some(f) && family_choice_of(f, a) is Some) && (
            e matches GamrsError::InvalidParameter(m) && m@ == design_refusal(design@))),
        },
{
    let c: FamilyChoice = match family_choice::<F>(name, a) {
        Ok(c) => c,
        Err(e) => return Err(e),
    };
    match fit_dispatch_design(design, k) {
        Ok(d) => Ok((c, d)),
        Err(e) => Err(e),
    }
}

/// Why an additive fit is refused.
#[derive(Debug)]
pub enum AdditiveError {
    /// A term is not understood.
    Term(TermError),
    /// The family is not.
    Family(GamrsError),
}

/// Terms and family of an additive fit. What is wrong with the terms is said
/// first.
pub fn fit_additive<F: Arithmetic>(name: &str, a: FamilyArgs, items: &Vec<Item>) -> (r: Result<
    (FamilyChoice, Vec<TermSpec>),
    AdditiveError,
>)
    ensures
        match r {
            Ok(out) => family_name_of(name@) matches Some(f) && family_choice_of(f, a) == Some(out.0)
                && terms_read(items@, out.1@),
            Err(AdditiveError::Term(e)) => terms_refused(items@, e),
            Err(AdditiveError::Family(e)) => items@.len() > 0 && understood(items@, items@.len())
                && family_error::<F>(name@, a, e),
        },
{
    let terms: Vec<TermSpec> = match build_term_specs(items) {
        Ok(t) => t,
        Err(e) => return Err(AdditiveError::Term(e)),
    };
    assert(understood(items@, items@.len())) by {
        assert forall|j: int| 0 <= j < items@.len() implies (#[trigger] term_of(j as usize, items@[j])) is Ok by {
            assert(term_of(j as usize, items@[j]) == Ok::<TermView, TermErrorView>(terms@[j]@));
        }
    }
    match family_choice::<F>(name, a) {
        Ok(c) => Ok((c, terms)),
        Err(e) => Err(AdditiveError::Family(e)),
    }
}

/// The tuning that given tolerances put in force: the default with them in it.
pub open spec fn tuning_with(grad_tol: Option<Double>, reml_tol: Option<Double>) -> OuterTuning {
    OuterTuning {
        grad_tol: given_or(grad_tol, default_tuning().grad_tol),
        reml_tol: given_or(reml_tol, default_tuning().reml_tol),
        ..default_tuning()
    }
}

/// Replaces the tolerances of every later fit, or restores them where neither is
/// given.
pub fn set_outer_tuning_override(o: &mut Overrides, grad_tol: Option<Double>, reml_tol: Option<Double>)
    ensures
        *final(o) == (Overrides {
            tuning: if grad_tol is None && reml_tol is None {
                None
            } else {
                Some(tuning_with(grad_tol, reml_tol))
            },
            ..*old(o)
        }),
{
    if grad_tol.is_none() && reml_tol.is_none() {
        clear_tuning_override(o);
        return;
    }
    let mut t: OuterTuning = OuterTuning::mgcv_default();
    if let Some(g) = grad_tol {
        t.grad_tol = g;
    }
    if let Some(r) = reml_tol {
        t.reml_tol = r;
    }
    set_tuning_override(o, t);
}

/// The columns of each term: those of an additive design, or all but the intercept
/// where there is one smooth.
pub fn term_col_ranges(additive: Option<&Vec<(usize, usize)>>, p: usize) -> (r: Vec<(usize, usize)>)
    ensures
        r@ == (match additive {
            Some(v) => v@,
            None => seq![(1usize, p)],
        }),
{
    match additive {
        Some(v) => {
            let mut r: Vec<(usize, usize)> = Vec::new();
            for i in 0..v.len()
                invariant
                    r@.len() == i,
                    forall|k: int| 0 <= k < i ==> r@[k] == #[trigger] v@[k],
            {
                r.push(v[i]);
            }
            assert(r@ =~= v@);
            r
        },
        None => {
            let mut r: Vec<(usize, usize)> = Vec::new();
            r.push((1, p));
            assert(r@ =~= seq![(1usize, p)]);
            r
        },
    }
}

/// Adds `delta` to the intercept, and to nothing else.
pub fn shift_intercept<F: Arithmetic>(beta: &mut Vec<Double>, delta: Double)
    requires
        crate::arith::lawful::<F>(),
    ensures
        final(beta)@ == (if old(beta)@.len() == 0 {
            old(beta)@
        } else {
            old(beta)@.update(0, crate::arith::plus::<F>(old(beta)@[0], delta))
        }),
{
    if beta.len() > 0 {
        let x: Double = crate::arith::plus::<F>(beta[0], delta);
        beta.set(0, x);
    }
}

/// Clearing the tolerances restores those of the family, and leaves the algorithm
/// alone.
pub proof fn law_tolerances_are_restored(o: Overrides, grad_tol: Double, family: OuterTuning)
    ensures
        crate::outer::tuning_in_force(
            Overrides { tuning: Some(tuning_with(Some(grad_tol), None)), ..o },
            family,
        ).grad_tol == grad_tol,
        crate::outer::tuning_in_force(
            Overrides { tuning: Some(tuning_with(Some(grad_tol), None)), ..o },
            family,
        ).reml_tol == default_tuning().reml_tol,
        crate::outer::tuning_in_force(Overrides { tuning: None, ..o }, family) == family,
{
}

} // verus!
