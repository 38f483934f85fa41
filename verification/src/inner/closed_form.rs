//! The Gaussian fit with identity link: one penalised least-squares solve.

use vstd::prelude::*;

use crate::arith::{lawful, minus, plus, times, total, Arithmetic};
use crate::dense::{mat_plus, mat_plus_of, mat_vec, mat_vec_of};
use crate::double::{one, zero, Double};
use crate::error::GamrsError;
use crate::inner::linalg::{
    factor_and_solve_with_ridge, factored, ridge_solved, solve_matrix, LinearSolver,
};
use crate::inner::{
    combined_s, combined_s_of, penalties_fit, weights_fit, weights_view, xtwx_of, xtwx_xtwy,
    xtwy_of, GaussianInnerFit,
};
use crate::matrix::{fill_vec, Matrix};

verus! {

/// `sum_i w_i (y_i - mu_i)^2`, or without weights `sum_i (y_i - mu_i)^2`.
pub open spec fn rss_of<F: Arithmetic>(y: Seq<Double>, mu: Seq<Double>, w: Option<Seq<Double>>) -> Double {
    total::<F>(
        |i: int|
            {
                let r = minus::<F>(y[i], mu[i]);
                match w {
                    Some(wv) => times::<F>(times::<F>(wv[i], r), r),
                    None => times::<F>(r, r),
                }
            },
        y.len(),
    )
}

/// The residual sum of squares, weighted where there are weights.
pub fn rss<F: Arithmetic>(y: &Vec<Double>, mu: &Vec<Double>, w: Option<&Vec<Double>>) -> (s: Double)
    requires
        lawful::<F>(),
        mu@.len() == y@.len(),
        weights_fit(w, y@.len()),
    ensures
        s == rss_of::<F>(y@, mu@, weights_view(w)),
{
    let ghost wv = weights_view(w);
    let mut acc: Double = zero();
    for i in 0..y.len()
        invariant
            lawful::<F>(),
            mu@.len() == y@.len(),
            weights_fit(w, y@.len()),
            wv == weights_view(w),
            acc == total::<F>(
                |i: int|
                    {
                        let r = minus::<F>(y@[i], mu@[i]);
                        match wv {
                            Some(wv) => times::<F>(times::<F>(wv[i], r), r),
                            None => times::<F>(r, r),
                        }
                    },
                i as nat,
            ),
    {
        let r: Double = minus::<F>(y[i], mu[i]);
        let term: Double = match w {
            Some(v) => times::<F>(times::<F>(v[i], r), r),
            None => times::<F>(r, r),
        };
        acc = plus::<F>(acc, term);
    }
    acc
}

/// The given weights, or ones.
pub open spec fn weights_or_ones(w: Option<Seq<Double>>, n: nat) -> Seq<Double> {
    match w {
        Some(v) => v,
        None => Seq::new(n, |i: int| one()),
    }
}

/// The given weights, or ones.
pub fn prior_or_ones(w: Option<&Vec<Double>>, n: usize) -> (r: Vec<Double>)
    requires
        weights_fit(w, n as nat),
    ensures
        r@ == weights_or_ones(weights_view(w), n as nat),
        r@.len() == n,
{
    match w {
        Some(v) => {
            let r: Vec<Double> = v.clone();
            assert(r@ =~= v@);
            r
        },
        None => {
            let entry = |i: usize| -> (x: Double)
                ensures
                    x == one(),
                { one() };
            let r: Vec<Double> = fill_vec(n, entry);
            assert(r@ =~= Seq::new(n as nat, |i: int| one()));
            r
        },
    }
}

/// What a Gaussian fit with penalised cross-product `a` and right-hand side `b`
/// holds.
pub open spec fn gaussian_fit<F: Arithmetic, S: LinearSolver>(
    x: Seq<Seq<Double>>,
    y: Seq<Double>,
    w: Option<Seq<Double>>,
    a: Seq<Seq<Double>>,
    b: Seq<Double>,
    fit: GaussianInnerFit<S>,
) -> bool {
    &&& factored::<S>(a, Ok(fit.a_factor))
    &&& ridge_solved::<F, S>(a, b, fit.beta@)
    &&& fit.mu@ == mat_vec_of::<F>(x, fit.beta@)
    &&& fit.eta@ == fit.mu@
    &&& fit.rss == rss_of::<F>(y, fit.mu@, w)
    &&& fit.deviance == fit.rss
    &&& fit.working_response@ == y
    &&& fit.working_weights@ == weights_or_ones(w, y.len())
    &&& fit.a_weights@ == fit.working_weights@
    &&& fit.n == y.len()
    &&& fit.p == b.len()
    &&& fit.iterations == 1
    &&& fit.converged
    &&& fit.log_det_h_override is None
    &&& fit.tk_kkt_inputs is None
    &&& fit.dw_deta is None
    &&& fit.x_design is None
}

/// An error about a solution of the wrong length.
pub open spec fn misshapen_solution(e: GamrsError) -> bool {
    e matches GamrsError::SingularSystem(m) && m@ == "solution has the wrong length"@
}

/// A solver's answer of the wrong length.
fn misshapen() -> (e: GamrsError)
    ensures
        misshapen_solution(e),
{
    GamrsError::SingularSystem("solution has the wrong length".to_owned())
}

/// Solves `(X'WX + S) b = X'Wy` from given `X'WX` and `X'Wy` and collects the fit.
/// Fails with the error of the factorisation, or where the solver answers with
/// the wrong number of coefficients.
pub fn gaussian_inner_solve_cached<F: Arithmetic, S: LinearSolver>(
    x: &Matrix,
    y: &Vec<Double>,
    w: Option<&Vec<Double>>,
    xtwx: &Matrix,
    xtwy: &Vec<Double>,
    s_total: &Matrix,
) -> (r: Result<GaussianInnerFit<S>, GamrsError>)
    requires
        lawful::<F>(),
        x.shape(y@.len(), x.cols as nat),
        weights_fit(w, y@.len()),
        xtwx.square(x.cols as nat),
        xtwy@.len() == x.cols,
        s_total.square(x.cols as nat),
    ensures
        match r {
            Ok(fit) => gaussian_fit::<F, S>(
                x@,
                y@,
                weights_view(w),
                mat_plus_of::<F>(xtwx@, s_total@),
                xtwy@,
                fit,
            ),
            Err(e) => factored::<S>(mat_plus_of::<F>(xtwx@, s_total@), Err(e)) || factored::<S>(
                solve_matrix::<F>(mat_plus_of::<F>(xtwx@, s_total@)),
                Err(e),
            ) || misshapen_solution(e) && exists|b: Seq<Double>|
                b.len() != x.cols && #[trigger] ridge_solved::<F, S>(
                    mat_plus_of::<F>(xtwx@, s_total@),
                    xtwy@,
                    b,
                ),
        },
{
    let a: Matrix = mat_plus::<F>(xtwx, s_total);
    match factor_and_solve_with_ridge::<F, S>(&a, xtwy) {
        Ok((a_factor, beta)) => {
            if beta.len() != x.cols {
                assert(ridge_solved::<F, S>(a@, xtwy@, beta@));
                return Err(misshapen());
            }
            let mu: Vec<Double> = mat_vec::<F>(x, &beta);
            let s: Double = rss::<F>(y, &mu, w);
            let eta: Vec<Double> = mu.clone();
            assert(eta@ =~= mu@);
            let working_response: Vec<Double> = y.clone();
            assert(working_response@ =~= y@);
            let working_weights: Vec<Double> = prior_or_ones(w, y.len());
            let a_weights: Vec<Double> = working_weights.clone();
            assert(a_weights@ =~= working_weights@);
            Ok(
                GaussianInnerFit {
                    beta,
                    eta,
                    mu,
                    working_weights,
                    working_response,
                    deviance: s,
                    rss: s,
                    n: y.len(),
                    p: x.cols,
                    iterations: 1,
                    converged: true,
                    a_factor,
                    a_weights,
                    log_det_h_override: None,
                    tk_kkt_inputs: None,
                    dw_deta: None,
                    x_design: None,
                },
            )
        },
        Err(e) => Err(e),
    }
}

/// Solves `(X'WX + S) b = X'Wy` for given data and penalty.
pub fn gaussian_inner_solve<F: Arithmetic, S: LinearSolver>(
    x: &Matrix,
    y: &Vec<Double>,
    w: Option<&Vec<Double>>,
    s_total: &Matrix,
) -> (r: Result<GaussianInnerFit<S>, GamrsError>)
    requires
        lawful::<F>(),
        x.shape(y@.len(), x.cols as nat),
        weights_fit(w, y@.len()),
        s_total.square(x.cols as nat),
    ensures
        r matches Ok(fit) ==> gaussian_fit::<F, S>(
            x@,
            y@,
            weights_view(w),
            mat_plus_of::<F>(xtwx_of::<F>(x@, x.cols as nat, weights_view(w)), s_total@),
            xtwy_of::<F>(x@, x.cols as nat, y@, weights_view(w)),
            fit,
        ),
        r matches Err(e) ==> {
            let a = mat_plus_of::<F>(xtwx_of::<F>(x@, x.cols as nat, weights_view(w)), s_total@);
            let b = xtwy_of::<F>(x@, x.cols as nat, y@, weights_view(w));
            factored::<S>(a, Err(e)) || factored::<S>(solve_matrix::<F>(a), Err(e)) || misshapen_solution(
                e,
            ) && exists|
                c: Seq<Double>,
            |
                c.len() != x.cols && #[trigger] ridge_solved::<F, S>(a, b, c)
        },
{
    let (xtwx, xtwy) = xtwx_xtwy::<F>(x, y, w);
    gaussian_inner_solve_cached::<F, S>(x, y, w, &xtwx, &xtwy, s_total)
}

/// The Gaussian solver with its cross-products computed once.
pub struct GaussianClosedFormInner {
    /// Design matrix.
    pub x_design: Matrix,
    /// Response.
    pub y: Vec<Double>,
    /// Prior weights.
    pub weights: Option<Vec<Double>>,
    /// One penalty per smooth term.
    pub s_list: Vec<Matrix>,
    /// `X'WX`.
    pub cached_xtwx: Matrix,
    /// `X'Wy`.
    pub cached_xtwy: Vec<Double>,
}

/// The view of owned optional weights.
pub open spec fn owned_weights_view(w: Option<Vec<Double>>) -> Option<Seq<Double>> {
    match w {
        Some(v) => Some(v@),
        None => None,
    }
}

impl GaussianClosedFormInner {
    /// The shapes agree and the cached products are those of the data.
    pub open spec fn wf<F: Arithmetic>(&self) -> bool {
        let p = self.x_design.cols as nat;
        &&& self.x_design.shape(self.y@.len(), p)
        &&& (self.weights matches Some(v) ==> v@.len() == self.y@.len())
        &&& penalties_fit(self.s_list@, p)
        &&& self.cached_xtwx.square(p)
        &&& self.cached_xtwx@ == xtwx_of::<F>(self.x_design@, p, owned_weights_view(self.weights))
        &&& self.cached_xtwy@ == xtwy_of::<F>(
            self.x_design@,
            p,
            self.y@,
            owned_weights_view(self.weights),
        )
        &&& self.cached_xtwy@.len() == p
    }

    /// Computes the cross-products of the data.
    pub fn new<F: Arithmetic>(
        x_design: Matrix,
        y: Vec<Double>,
        weights: Option<Vec<Double>>,
        s_list: Vec<Matrix>,
    ) -> (s: GaussianClosedFormInner)
        requires
            lawful::<F>(),
            x_design.shape(y@.len(), x_design.cols as nat),
            weights matches Some(v) ==> v@.len() == y@.len(),
            penalties_fit(s_list@, x_design.cols as nat),
        ensures
            s.wf::<F>(),
            s.x_design == x_design,
            s.y == y,
            s.weights == weights,
            s.s_list == s_list,
    {
        let (cached_xtwx, cached_xtwy) = xtwx_xtwy::<F>(&x_design, &y, weights.as_ref());
        GaussianClosedFormInner { x_design, y, weights, s_list, cached_xtwx, cached_xtwy }
    }

    /// The penalised cross-product at `rho`.
    pub open spec fn penalised<F: Arithmetic>(&self, rho: Seq<Double>) -> Seq<Seq<Double>> {
        let p = self.x_design.cols as nat;
        mat_plus_of::<F>(
            xtwx_of::<F>(self.x_design@, p, owned_weights_view(self.weights)),
            combined_s_of::<F>(self.s_list@, rho, p),
        )
    }

    /// The right-hand side.
    pub open spec fn rhs<F: Arithmetic>(&self) -> Seq<Double> {
        xtwy_of::<F>(
            self.x_design@,
            self.x_design.cols as nat,
            self.y@,
            owned_weights_view(self.weights),
        )
    }

    /// Why there is no fit: a factorisation failed, or the solution has the wrong
    /// length.
    pub open spec fn fit_error<F: Arithmetic, S: LinearSolver>(&self, rho: Seq<Double>, e: GamrsError) -> bool {
        ||| factored::<S>(self.penalised::<F>(rho), Err(e))
        ||| factored::<S>(solve_matrix::<F>(self.penalised::<F>(rho)), Err(e))
        ||| misshapen_solution(e) && exists|b: Seq<Double>|
            b.len() != self.x_design.cols && #[trigger] ridge_solved::<F, S>(
                self.penalised::<F>(rho),
                self.rhs::<F>(),
                b,
            )
    }

    /// The fit at log smoothing parameters `rho`.
    pub fn fit<F: Arithmetic, S: LinearSolver>(&self, rho: &Vec<Double>) -> (r: Result<
        GaussianInnerFit<S>,
        GamrsError,
    >)
        requires
            lawful::<F>(),
            self.wf::<F>(),
            rho@.len() == self.s_list@.len(),
        ensures
            match r {
                Ok(fit) => gaussian_fit::<F, S>(
                    self.x_design@,
                    self.y@,
                    owned_weights_view(self.weights),
                    self.penalised::<F>(rho@),
                    self.rhs::<F>(),
                    fit,
                ),
                Err(e) => self.fit_error::<F, S>(rho@, e),
            },
    {
        let s_total: Matrix = combined_s::<F>(&self.s_list, rho, self.x_design.cols);
        let w: Option<&Vec<Double>> = self.weights.as_ref();
        assert(weights_view(w) == owned_weights_view(self.weights));
        assert(self.penalised::<F>(rho@) == mat_plus_of::<F>(self.cached_xtwx@, s_total@));
        assert(self.rhs::<F>() == self.cached_xtwy@);
        let r: Result<GaussianInnerFit<S>, GamrsError> = gaussian_inner_solve_cached::<F, S>(
            &self.x_design,
            &self.y,
            w,
            &self.cached_xtwx,
            &self.cached_xtwy,
            &s_total,
        );
        r
    }
}

} // verus!
