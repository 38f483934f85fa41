//! The score's gradient along the shape parameters, from implicit derivatives of
//! the coefficients.

use vstd::prelude::*;

use crate::arith::{lawful, minus, over, plus, times, total, Arithmetic};
use crate::dense::{mat_t_vec, mat_t_vec_of, mat_vec, mat_vec_of, scaled, scaled_of, sum_over};
use crate::double::{half, lit, one, zero, Double, E_M300, THREE};
use crate::error::GamrsError;
use crate::inner::linalg::{solved, LinearSolver};
use crate::inner::pirls::curvature::{lazy_tk_kkt_inputs, tk_inputs_of};
use crate::inner::{combined_s, combined_s_of, GaussianInnerFit, TkKKTInputs};
use crate::matrix::{fill_vec, Matrix};
use crate::outer::step::{negated, negated_of};
use crate::score::envelope::misfit;
use crate::score::shape_aware::level2::Level1ShapeDerivs;
use crate::score::shape_aware::rho_gradient::{row_leverage, row_leverage_of};
use crate::score::shape_aware::score::ShapeAwareEnvelopeScore;
use crate::traits::{is_shape, is_square, DenseBackend, Family, Link, ShapeLoss, VarianceFn};

verus! {

/// The derivatives of a link at a mean.
#[derive(Clone, Copy, Debug, PartialEq, Eq, Structural)]
pub struct LinkJet {
    /// First.
    pub g1: Double,
    /// Second.
    pub g2: Double,
    /// Third.
    pub g3: Double,
}

impl LinkJet {
    /// The first derivative is too small to divide by.
    pub open spec fn flat(self) -> bool {
        self.g1.abs_spec().below(lit(E_M300))
    }

    /// `1 / g'`, or zero.
    pub open spec fn ig1_of<F: Arithmetic>(self) -> Double {
        if self.flat() {
            zero()
        } else {
            over::<F>(one(), self.g1)
        }
    }

    /// `g'' / g'^2`, or zero.
    pub open spec fn g2g_of<F: Arithmetic>(self) -> Double {
        if self.flat() {
            zero()
        } else {
            over::<F>(self.g2, times::<F>(self.g1, self.g1))
        }
    }

    /// `g''' / g'^3`, or zero.
    pub open spec fn g3g_of<F: Arithmetic>(self) -> Double {
        if self.flat() {
            zero()
        } else {
            over::<F>(self.g3, times::<F>(times::<F>(self.g1, self.g1), self.g1))
        }
    }

    /// `1 / g'`, or zero.
    pub fn ig1<F: Arithmetic>(self) -> (r: Double)
        requires
            lawful::<F>(),
        ensures
            r == self.ig1_of::<F>(),
    {
        if self.g1.abs().lt(lit(E_M300)) {
            zero()
        } else {
            over::<F>(one(), self.g1)
        }
    }

    /// `g'' / g'^2`, or zero.
    pub fn g2g<F: Arithmetic>(self) -> (r: Double)
        requires
            lawful::<F>(),
        ensures
            r == self.g2g_of::<F>(),
    {
        if self.g1.abs().lt(lit(E_M300)) {
            zero()
        } else {
            over::<F>(self.g2, times::<F>(self.g1, self.g1))
        }
    }

    /// `g''' / g'^3`, or zero.
    pub fn g3g<F: Arithmetic>(self) -> (r: Double)
        requires
            lawful::<F>(),
        ensures
            r == self.g3g_of::<F>(),
    {
        if self.g1.abs().lt(lit(E_M300)) {
            zero()
        } else {
            over::<F>(self.g3, times::<F>(times::<F>(self.g1, self.g1), self.g1))
        }
    }
}

/// The derivatives of a link at each mean, as it answers.
pub open spec fn jets_read<K: Link>(link: K, mu: Seq<Double>, jets: Seq<LinkJet>) -> bool {
    jets.len() == mu.len() && forall|i: int|
        0 <= i < mu.len() ==> jet_answered::<K>(link, mu[i], #[trigger] jets[i])
}

/// The derivatives of a link at a mean, as it answers.
pub open spec fn jet_answered<K: Link>(link: K, mu: Double, j: LinkJet) -> bool {
    &&& call_ensures(K::d_link_dmu, (&link, mu), j.g1)
    &&& call_ensures(K::d2_link_dmu, (&link, mu), j.g2)
    &&& call_ensures(K::d3_link_dmu, (&link, mu), j.g3)
}

/// Asks a link for its derivatives at each mean.
pub fn read_jets<K: Link>(link: &K, mu: &Vec<Double>) -> (jets: Vec<LinkJet>)
    ensures
        jets_read::<K>(*link, mu@, jets@),
{
    let mut jets: Vec<LinkJet> = Vec::new();
    for i in 0..mu.len()
        invariant
            jets@.len() == i,
            forall|k: int| 0 <= k < i ==> jet_answered::<K>(*link, mu@[k], #[trigger] jets@[k]),
    {
        let j: LinkJet = LinkJet {
            g1: link.d_link_dmu(mu[i]),
            g2: link.d2_link_dmu(mu[i]),
            g3: link.d3_link_dmu(mu[i]),
        };
        assert(jet_answered::<K>(*link, mu@[i as int], j));
        jets.push(j);
    }
    jets
}

/// What the gradient along the shape parameters is computed from.
pub struct ShapeGradCtx<'a> {
    /// Design matrix.
    pub x: &'a Matrix,
    /// First derivatives.
    pub lv1: &'a Level1ShapeDerivs,
    /// Link derivatives.
    pub jets: &'a Vec<LinkJet>,
    /// Weighted derivative of each deviance along the mean.
    pub dmu: &'a Vec<Double>,
    /// Weighted second derivative of each deviance along the mean.
    pub dmu2: &'a Vec<Double>,
    /// Leverage of each observation.
    pub h_diag: &'a Vec<Double>,
    /// Derivative of the coefficients along each shape parameter.
    pub dbeta: &'a Vec<Vec<Double>>,
    /// Derivatives of the weights, where they are not those of the deviance.
    pub weights: &'a Option<(Matrix, Vec<Double>)>,
    /// Derivatives of the saturated log-likelihood.
    pub sum_dls: &'a Vec<Double>,
}

impl<'a> ShapeGradCtx<'a> {
    /// The shapes agree for `m` shape parameters and `p` coefficients.
    pub open spec fn wf(&self, m: nat, p: nat) -> bool {
        let n = self.x@.len();
        &&& self.x.shape(n, p)
        &&& self.lv1.fits(n, m)
        &&& self.jets@.len() == n
        &&& self.dmu@.len() == n
        &&& self.dmu2@.len() == n
        &&& self.h_diag@.len() == n
        &&& self.dbeta@.len() == m
        &&& forall|k: int| 0 <= k < m ==> (#[trigger] self.dbeta@[k])@.len() == p
        &&& (*self.weights matches Some(w) ==> w.0.shape(n, m) && w.1@.len() == n)
        &&& self.sum_dls@.len() == m
    }

    /// The third derivative of an observation's deviance along the linear
    /// predictor.
    pub open spec fn deta3<F: Arithmetic>(&self, i: int) -> Double {
        let ig1 = self.jets@[i].ig1_of::<F>();
        let g2g = self.jets@[i].g2g_of::<F>();
        let g3g = self.jets@[i].g3g_of::<F>();
        let ig1_2 = times::<F>(ig1, ig1);
        plus::<F>(
            minus::<F>(
                times::<F>(self.lv1.dmu3@[i], times::<F>(ig1_2, ig1)),
                times::<F>(
                    times::<F>(lit(THREE), times::<F>(self.dmu2@[i], g2g)),
                    ig1_2,
                ),
            ),
            times::<F>(
                times::<F>(
                    self.dmu@[i],
                    minus::<F>(times::<F>(lit(THREE), times::<F>(g2g, g2g)), g3g),
                ),
                ig1,
            ),
        )
    }

    /// The derivative of an observation's curvature along shape parameter `k` at a
    /// fixed linear predictor.
    pub open spec fn deta2th<F: Arithmetic>(&self, i: int, k: int) -> Double {
        let ig1 = self.jets@[i].ig1_of::<F>();
        minus::<F>(
            times::<F>(self.lv1.dmu2th@[i][k], times::<F>(ig1, ig1)),
            times::<F>(times::<F>(self.lv1.dmuth@[i][k], self.jets@[i].g2g_of::<F>()), ig1),
        )
    }

    /// The derivative of an observation's weight along shape parameter `k`.
    pub open spec fn weight_slope<F: Arithmetic>(&self, i: int, k: int) -> Double {
        let x_db = mat_vec_of::<F>(self.x@, self.dbeta@[k]@)[i];
        match *self.weights {
            Some(w) => plus::<F>(w.0@[i][k], times::<F>(w.1@[i], x_db)),
            None => times::<F>(
                plus::<F>(self.deta2th::<F>(i, k), times::<F>(self.deta3::<F>(i), x_db)),
                half(),
            ),
        }
    }

    /// The gradient along shape parameter `k`.
    pub open spec fn entry<F: Arithmetic>(&self, k: int) -> Double {
        let n = self.x@.len();
        minus::<F>(
            plus::<F>(
                times::<F>(half(), total::<F>(|i: int| self.lv1.dth@[i][k], n)),
                times::<F>(
                    half(),
                    total::<F>(
                        |i: int| times::<F>(self.weight_slope::<F>(i, k), self.h_diag@[i]),
                        n,
                    ),
                ),
            ),
            self.sum_dls@[k],
        )
    }

    fn third<F: Arithmetic>(&self, i: usize, Ghost(m): Ghost<nat>, Ghost(p): Ghost<nat>) -> (r: Double)
        requires
            lawful::<F>(),
            self.wf(m, p),
            i < self.x@.len(),
        ensures
            r == self.deta3::<F>(i as int),
    {
        let ig1: Double = self.jets[i].ig1::<F>();
        let g2g: Double = self.jets[i].g2g::<F>();
        let g3g: Double = self.jets[i].g3g::<F>();
        let ig1_2: Double = times::<F>(ig1, ig1);
        let a: Double = times::<F>(self.lv1.dmu3[i], times::<F>(ig1_2, ig1));
        let b: Double = times::<F>(
            times::<F>(lit(THREE), times::<F>(self.dmu2[i], g2g)),
            ig1_2,
        );
        let c: Double = times::<F>(
            times::<F>(
                self.dmu[i],
                minus::<F>(times::<F>(lit(THREE), times::<F>(g2g, g2g)), g3g),
            ),
            ig1,
        );
        plus::<F>(minus::<F>(a, b), c)
    }

    fn component<F: Arithmetic>(&self, k: usize, Ghost(m): Ghost<nat>, Ghost(p): Ghost<nat>) -> (r: Double)
        requires
            lawful::<F>(),
            self.wf(m, p),
            k < m,
        ensures
            r == self.entry::<F>(k as int),
    {
        let n: usize = self.x.rows.len();
        assert(self.dbeta@[k as int]@.len() == p);
        let x_db: Vec<Double> = mat_vec::<F>(self.x, &self.dbeta[k]);
        let own = |i: usize| -> (v: Double)
            requires
                i < n,
            ensures
                v == self.lv1.dth@[i as int][k as int],
            { self.lv1.dth.get(i, k) };
        let sum_dth: Double = sum_over::<F, _>(n, own, Ghost(|i: int| self.lv1.dth@[i][k as int]));
        let weigh = |i: usize| -> (v: Double)
            requires
                i < n,
            ensures
                v == times::<F>(self.weight_slope::<F>(i as int, k as int), self.h_diag@[i as int]),
            {
                let s: Double = match self.weights {
                    Some(w) => plus::<F>(w.0.get(i, k), times::<F>(w.1[i], x_db[i])),
                    None => {
                        let ig1: Double = self.jets[i].ig1::<F>();
                        let g2g: Double = self.jets[i].g2g::<F>();
                        let deta2th: Double = minus::<F>(
                            times::<F>(self.lv1.dmu2th.get(i, k), times::<F>(ig1, ig1)),
                            times::<F>(times::<F>(self.lv1.dmuth.get(i, k), g2g), ig1),
                        );
                        let deta3: Double = self.third::<F>(i, Ghost(m), Ghost(p));
                        times::<F>(plus::<F>(deta2th, times::<F>(deta3, x_db[i])), half())
                    },
                };
                times::<F>(s, self.h_diag[i])
            };
        let trace: Double = sum_over::<F, _>(
            n,
            weigh,
            Ghost(
                |i: int| times::<F>(self.weight_slope::<F>(i, k as int), self.h_diag@[i]),
            ),
        );
        minus::<F>(
            plus::<F>(times::<F>(half(), sum_dth), times::<F>(half(), trace)),
            self.sum_dls[k],
        )
    }

    /// The gradient along `m` shape parameters.
    pub fn compute<F: Arithmetic>(&self, m: usize, p: usize) -> (g: Vec<Double>)
        requires
            lawful::<F>(),
            self.wf(m as nat, p as nat),
        ensures
            g@ == Seq::new(m as nat, |k: int| self.entry::<F>(k)),
    {
        let entry = |k: usize| -> (v: Double)
            requires
                k < m,
            ensures
                v == self.entry::<F>(k as int),
            { self.component::<F>(k, Ghost(m as nat), Ghost(p as nat)) };
        let g: Vec<Double> = fill_vec(m, entry);
        assert(g@ =~= Seq::new(m as nat, |k: int| self.entry::<F>(k)));
        g
    }
}

/// What was read about a fit for the gradient along the shape parameters.
pub struct ShapeReading {
    /// Weight-chain inputs, where the loss uses the observed information.
    pub tk: Option<TkKKTInputs>,
    /// Link derivatives.
    pub jets: Vec<LinkJet>,
    /// Weighted derivative of each deviance along the mean.
    pub dmu: Vec<Double>,
    /// Weighted second derivative of each deviance along the mean.
    pub dmu2: Vec<Double>,
    /// Leverages.
    pub h_diag: Vec<Double>,
    /// Derivative of the coefficients along each shape parameter.
    pub dbeta: Vec<Vec<Double>>,
    /// Derivatives of the weights, where they are not those of the deviance.
    pub weights: Option<(Matrix, Vec<Double>)>,
    /// Derivatives of the saturated log-likelihood.
    pub sum_dls: Vec<Double>,
}

/// One observation's weighted derivatives along the mean, as the loss answers.
pub open spec fn loss_row_read<F: Arithmetic, L: ShapeLoss<K, V>, K: Link, V: VarianceFn>(
    loss: L,
    y: Double,
    mu: Double,
    prior: Double,
    d1: Double,
    d2: Double,
) -> bool {
    &&& exists|a: Double| #[trigger]
        call_ensures(<L as ShapeLoss<K, V>>::d_loss_dmu, (&loss, y, mu), a) && d1 == times::<F>(prior, a)
    &&& exists|b: Double| #[trigger]
        call_ensures(<L as ShapeLoss<K, V>>::d2_loss_dmu, (&loss, y, mu), b) && d2 == times::<F>(prior, b)
}

impl<L: ShapeLoss<K, V>, K: Link, V: VarianceFn, B, P, D: DenseBackend, S: LinearSolver> ShapeAwareEnvelopeScore<
    L,
    K,
    V,
    B,
    P,
    D,
    S,
> {
    /// The weight-chain inputs at a fit, where the loss uses the observed
    /// information and they can be had.
    pub open spec fn tk_read<F: Arithmetic>(
        &self,
        fit: GaussianInnerFit<S>,
        family: Family<L, K, V>,
        rho: Seq<Double>,
        r: Option<TkKKTInputs>,
    ) -> bool {
        exists|newton: bool| #[trigger]
            call_ensures(L::use_newton_irls, (&family.loss,), newton) && if newton {
                tk_inputs_of::<F, K, V, D>(
                    family.link,
                    family.variance,
                    self.data.y@,
                    fit.mu@,
                    fit.beta@,
                    self.data.x_design@,
                    self.data.s_list@,
                    combined_s_of::<F>(self.data.s_list@, rho, self.data.x_design.cols as nat),
                    rho,
                    r,
                )
            } else {
                r is None
            }
    }

    /// The weight-chain inputs at a fit.
    pub fn lazy_tk<F: Arithmetic>(&self, fit: &GaussianInnerFit<S>, family: &Family<L, K, V>, rho: &Vec<Double>) -> (r: Option<
        TkKKTInputs,
    >)
        requires
            lawful::<F>(),
            self.wf(),
            self.sized(*fit),
            rho@.len() == self.terms(),
        ensures
            self.tk_read::<F>(*fit, *family, rho@, r),
            r matches Some(t) ==> t.a_newton_inv.square(fit.p as nat) && t.lev_uw@.len()
                == self.data.y@.len(),
    {
        let newton: bool = family.loss.use_newton_irls();
        if !newton {
            return None;
        }
        let s_total: Matrix = combined_s::<F>(&self.data.s_list, rho, self.data.x_design.cols);
        lazy_tk_kkt_inputs::<F, K, V, D>(
            &family.link,
            &family.variance,
            &self.data.y,
            &fit.mu,
            &fit.beta,
            &self.data.x_design,
            &self.data.s_list,
            &s_total,
            rho,
        )
    }

    /// The weighted derivatives of each deviance along the mean.
    pub open spec fn loss_slopes_read<F: Arithmetic>(&self, mu: Seq<Double>, d1: Seq<Double>, d2: Seq<Double>) -> bool {
        let n = self.data.y@.len();
        &&& d1.len() == n
        &&& d2.len() == n
        &&& forall|i: int|
            0 <= i < n ==> loss_row_read::<F, L, K, V>(
                self.family_base.loss,
                self.data.y@[i],
                mu[i],
                self.prior()[i],
                #[trigger] d1[i],
                d2[i],
            )
    }

    /// Asks the loss for the derivatives of each deviance along the mean.
    pub fn loss_slopes<F: Arithmetic>(&self, mu: &Vec<Double>) -> (r: (Vec<Double>, Vec<Double>))
        requires
            lawful::<F>(),
            self.wf(),
            mu@.len() == self.data.y@.len(),
        ensures
            self.loss_slopes_read::<F>(mu@, r.0@, r.1@),
    {
        let prior: Vec<Double> = self.prior_weights();
        let mut d1: Vec<Double> = Vec::new();
        let mut d2: Vec<Double> = Vec::new();
        for i in 0..self.data.y.len()
            invariant
                lawful::<F>(),
                prior@ == self.prior(),
                prior@.len() == self.data.y@.len(),
                mu@.len() == self.data.y@.len(),
                d1@.len() == i,
                d2@.len() == i,
                forall|k: int|
                    0 <= k < i ==> loss_row_read::<F, L, K, V>(
                        self.family_base.loss,
                        self.data.y@[k],
                        mu@[k],
                        self.prior()[k],
                        #[trigger] d1@[k],
                        d2@[k],
                    ),
        {
            let a: Double = self.family_base.loss.d_loss_dmu(self.data.y[i], mu[i]);
            let b: Double = self.family_base.loss.d2_loss_dmu(self.data.y[i], mu[i]);
            let x: Double = times::<F>(prior[i], a);
            let z: Double = times::<F>(prior[i], b);
            assert(loss_row_read::<F, L, K, V>(
                self.family_base.loss,
                self.data.y@[i as int],
                mu@[i as int],
                self.prior()[i as int],
                x,
                z,
            ));
            d1.push(x);
            d2.push(z);
        }
        (d1, d2)
    }

    /// The right-hand side for the derivative of the coefficients along shape
    /// parameter `k`.
    pub open spec fn shape_rhs<F: Arithmetic>(&self, lv1: Level1ShapeDerivs, jets: Seq<LinkJet>, k: int) -> Seq<Double> {
        scaled_of::<F>(
            mat_t_vec_of::<F>(
                self.data.x_design@,
                self.data.x_design.cols as nat,
                Seq::new(
                    self.data.y@.len(),
                    |i: int| times::<F>(lv1.dmuth@[i][k], jets[i].ig1_of::<F>()),
                ),
            ),
            half(),
        )
    }

    /// The derivative of the coefficients along shape parameter `k`: solved with
    /// the Newton inverse where there is one, else with the fit's own factor.
    pub open spec fn shape_dbeta_read<F: Arithmetic>(
        &self,
        fit: GaussianInnerFit<S>,
        lv1: Level1ShapeDerivs,
        tk: Option<TkKKTInputs>,
        jets: Seq<LinkJet>,
        k: int,
        b: Seq<Double>,
    ) -> bool {
        let rhs = self.shape_rhs::<F>(lv1, jets, k);
        match tk {
            Some(t) => b == negated_of(mat_vec_of::<F>(t.a_newton_inv@, rhs)),
            None => exists|v: Seq<Double>| #[trigger]
                solved::<S>(fit.a_factor, rhs, v) && b == negated_of(v),
        }
    }

    /// The leverages: those of the Newton inverse where there is one, else those
    /// of the fit's own.
    pub open spec fn leverages_read<F: Arithmetic>(
        &self,
        fit: GaussianInnerFit<S>,
        tk: Option<TkKKTInputs>,
        h: Seq<Double>,
    ) -> bool {
        match tk {
            Some(t) => h == t.lev_uw@,
            None => exists|a_inv: Matrix| #[trigger]
                call_ensures(S::invert, (&fit.a_factor,), a_inv) && a_inv.square(fit.p as nat) && h
                    == row_leverage_of::<F>(self.data.x_design@, a_inv@),
        }
    }

    /// What was read about a fit.
    pub open spec fn shape_read<F: Arithmetic>(
        &self,
        fit: GaussianInnerFit<S>,
        family: Family<L, K, V>,
        lv1: Level1ShapeDerivs,
        rho: Seq<Double>,
        q: ShapeReading,
    ) -> bool {
        &&& self.tk_read::<F>(fit, family, rho, q.tk)
        &&& jets_read::<K>(self.family_base.link, fit.mu@, q.jets@)
        &&& self.loss_slopes_read::<F>(fit.mu@, q.dmu@, q.dmu2@)
        &&& self.leverages_read::<F>(fit, q.tk, q.h_diag@)
        &&& q.dbeta@.len() == self.n_shape
        &&& forall|k: int|
            0 <= k < self.n_shape ==> self.shape_dbeta_read::<F>(
                fit,
                lv1,
                q.tk,
                q.jets@,
                k,
                (#[trigger] q.dbeta@[k])@,
            )
        &&& exists|prior: Vec<Double>|
            prior@ == self.prior() && #[trigger] call_ensures(
                <L as ShapeLoss<K, V>>::sum_saturated_log_lik_dtheta,
                (&family.loss, &self.data.y, one(), &prior),
                q.sum_dls,
            )
        &&& exists|prior: Vec<Double>|
            prior@ == self.prior() && #[trigger] call_ensures(
                <L as ShapeLoss<K, V>>::ift_trace_weight_derivs,
                (&family.loss, &self.data.y, &fit.eta, &prior),
                q.weights,
            )
    }

    /// The gradient's inputs at a reading.
    pub open spec fn shape_ctx<'a>(&'a self, lv1: &'a Level1ShapeDerivs, q: &'a ShapeReading) -> ShapeGradCtx<'a> {
        ShapeGradCtx {
            x: &self.data.x_design,
            lv1,
            jets: &q.jets,
            dmu: &q.dmu,
            dmu2: &q.dmu2,
            h_diag: &q.h_diag,
            dbeta: &q.dbeta,
            weights: &q.weights,
            sum_dls: &q.sum_dls,
        }
    }

    /// The gradient along the shape parameters, for some reading of the fit.
    pub open spec fn shape_gradient<F: Arithmetic>(
        &self,
        fit: GaussianInnerFit<S>,
        family: Family<L, K, V>,
        lv1: Level1ShapeDerivs,
        rho: Seq<Double>,
        g: Seq<Double>,
    ) -> bool {
        exists|q: ShapeReading| #[trigger]
            self.shape_read::<F>(fit, family, lv1, rho, q) && self.shape_ctx(&lv1, &q).wf(
                self.n_shape as nat,
                fit.p as nat,
            ) && g == Seq::new(
                self.n_shape as nat,
                |k: int| self.shape_ctx(&lv1, &q).entry::<F>(k),
            )
    }

    /// The solver answered an inverse of the wrong size, where there is no Newton
    /// inverse.
    pub open spec fn inverse_misread<F: Arithmetic>(
        &self,
        fit: GaussianInnerFit<S>,
        family: Family<L, K, V>,
        rho: Seq<Double>,
    ) -> bool {
        self.tk_read::<F>(fit, family, rho, None) && exists|a_inv: Matrix| #[trigger]
            call_ensures(S::invert, (&fit.a_factor,), a_inv) && !a_inv.square(fit.p as nat)
    }

    /// The solver answered a derivative of the coefficients of the wrong length.
    pub open spec fn direction_misread<F: Arithmetic>(
        &self,
        fit: GaussianInnerFit<S>,
        lv1: Level1ShapeDerivs,
        jets: Seq<LinkJet>,
    ) -> bool {
        exists|k: int, v: Seq<Double>|
            0 <= k < self.n_shape && v.len() != fit.p && #[trigger] solved::<S>(
                fit.a_factor,
                self.shape_rhs::<F>(lv1, jets, k),
                v,
            )
    }

    /// Something that was answered about a fit has the wrong size.
    pub open spec fn shape_misread<F: Arithmetic>(
        &self,
        fit: GaussianInnerFit<S>,
        family: Family<L, K, V>,
        lv1: Level1ShapeDerivs,
        rho: Seq<Double>,
    ) -> bool {
        let n = self.data.y@.len();
        let m = self.n_shape as nat;
        ||| !lv1.fits(n, m)
        ||| self.inverse_misread::<F>(fit, family, rho)
        ||| self.tk_read::<F>(fit, family, rho, None) && exists|jets: Seq<LinkJet>| #[trigger]
            jets_read::<K>(self.family_base.link, fit.mu@, jets) && self.direction_misread::<F>(
                fit,
                lv1,
                jets,
            )
        ||| exists|prior: Vec<Double>, d: Vec<Double>|
            prior@ == self.prior() && d@.len() != m && #[trigger] call_ensures(
                <L as ShapeLoss<K, V>>::sum_saturated_log_lik_dtheta,
                (&family.loss, &self.data.y, one(), &prior),
                d,
            )
        ||| exists|prior: Vec<Double>, w: (Matrix, Vec<Double>)|
            prior@ == self.prior() && !(w.0.shape(n, m) && w.1@.len() == n) && #[trigger] call_ensures(
                <L as ShapeLoss<K, V>>::ift_trace_weight_derivs,
                (&family.loss, &self.data.y, &fit.eta, &prior),
                Some(w),
            )
    }

    fn shape_directions<F: Arithmetic>(
        &self,
        fit: &GaussianInnerFit<S>,
        lv1: &Level1ShapeDerivs,
        tk: &Option<TkKKTInputs>,
        jets: &Vec<LinkJet>,
    ) -> (r: Option<Vec<Vec<Double>>>)
        requires
            lawful::<F>(),
            self.wf(),
            self.sized(*fit),
            lv1.fits(self.data.y@.len(), self.n_shape as nat),
            jets@.len() == self.data.y@.len(),
            *tk matches Some(t) ==> t.a_newton_inv.square(fit.p as nat),
        ensures
            match r {
                Some(d) => d@.len() == self.n_shape && forall|k: int|
                    0 <= k < self.n_shape ==> self.shape_dbeta_read::<F>(
                        *fit,
                        *lv1,
                        *tk,
                        jets@,
                        k,
                        (#[trigger] d@[k])@,
                    ) && d@[k]@.len() == fit.p,
                None => *tk is None && self.direction_misread::<F>(*fit, *lv1, jets@),
            },
    {
        let n: usize = self.data.y.len();
        let mut out: Vec<Vec<Double>> = Vec::new();
        for k in 0..self.n_shape
            invariant
                lawful::<F>(),
                self.wf(),
                self.sized(*fit),
                n == self.data.y@.len(),
                lv1.fits(self.data.y@.len(), self.n_shape as nat),
                jets@.len() == self.data.y@.len(),
                *tk matches Some(t) ==> t.a_newton_inv.square(fit.p as nat),
                out@.len() == k,
                forall|i: int|
                    0 <= i < k ==> self.shape_dbeta_read::<F>(
                        *fit,
                        *lv1,
                        *tk,
                        jets@,
                        i,
                        (#[trigger] out@[i])@,
                    ) && out@[i]@.len() == fit.p,
        {
            let detath = |i: usize| -> (v: Double)
                requires
                    i < n,
                ensures
                    v == times::<F>(lv1.dmuth@[i as int][k as int], jets@[i as int].ig1_of::<F>()),
                { times::<F>(lv1.dmuth.get(i, k), jets[i].ig1::<F>()) };
            let d: Vec<Double> = fill_vec(n, detath);
            assert(d@ =~= Seq::new(
                self.data.y@.len(),
                |i: int| times::<F>(lv1.dmuth@[i][k as int], jets@[i].ig1_of::<F>()),
            ));
            let xt: Vec<Double> = mat_t_vec::<F>(&self.data.x_design, &d);
            let rhs: Vec<Double> = scaled::<F>(&xt, half());
            assert(rhs@ == self.shape_rhs::<F>(*lv1, jets@, k as int));
            let v: Vec<Double> = match tk {
                Some(t) => mat_vec::<F>(&t.a_newton_inv, &rhs),
                None => {
                    let s: Vec<Double> = fit.solve_a(&rhs);
                    assert(solved::<S>(fit.a_factor, rhs@, s@));
                    if s.len() != fit.p {
                        assert(solved::<S>(
                            fit.a_factor,
                            self.shape_rhs::<F>(*lv1, jets@, k as int),
                            s@,
                        ));
                        return None;
                    }
                    s
                },
            };
            let b: Vec<Double> = negated(&v);
            assert(self.shape_dbeta_read::<F>(*fit, *lv1, *tk, jets@, k as int, b@));
            out.push(b);
        }
        Some(out)
    }

    /// The gradient along the shape parameters from first derivatives of the
    /// deviance.
    pub fn analytic_shape_grad_via_ift<F: Arithmetic>(
        &self,
        fit: &GaussianInnerFit<S>,
        family: &Family<L, K, V>,
        lv1: &Level1ShapeDerivs,
        rho: &Vec<Double>,
    ) -> (r: Result<Vec<Double>, GamrsError>)
        requires
            lawful::<F>(),
            self.wf(),
            self.sized(*fit),
            rho@.len() == self.terms(),
        ensures
            match r {
                Ok(g) => self.shape_gradient::<F>(*fit, *family, *lv1, rho@, g@) && g@.len()
                    == self.n_shape,
                Err(e) => misfit(e) && self.shape_misread::<F>(*fit, *family, *lv1, rho@),
            },
    {
        let n: usize = self.data.y.len();
        let m: usize = self.n_shape;
        if !lv1_ok(lv1, n, m) {
            return Err(GamrsError::InvalidParameter("fit has the wrong size".to_owned()));
        }
        let tk: Option<TkKKTInputs> = self.lazy_tk::<F>(fit, family, rho);
        let jets: Vec<LinkJet> = read_jets::<K>(&self.family_base.link, &fit.mu);
        let (dmu, dmu2) = self.loss_slopes::<F>(&fit.mu);
        let dbeta: Vec<Vec<Double>> = match self.shape_directions::<F>(fit, lv1, &tk, &jets) {
            Some(d) => d,
            None => {
                return Err(GamrsError::InvalidParameter("fit has the wrong size".to_owned()));
            },
        };
        let h_diag: Vec<Double> = match &tk {
            Some(t) => {
                let h: Vec<Double> = t.lev_uw.clone();
                assert(h@ =~= t.lev_uw@);
                h
            },
            None => {
                let a_inv: Matrix = fit.a_inv();
                if !is_square(&a_inv, fit.p) {
                    return Err(GamrsError::InvalidParameter("fit has the wrong size".to_owned()));
                }
                row_leverage::<F>(&self.data.x_design, &a_inv)
            },
        };
        assert(self.leverages_read::<F>(*fit, tk, h_diag@));
        let prior: Vec<Double> = self.prior_weights();
        let sum_dls: Vec<Double> = family.loss.sum_saturated_log_lik_dtheta(
            &self.data.y,
            one(),
            &prior,
        );
        if sum_dls.len() != m {
            return Err(GamrsError::InvalidParameter("fit has the wrong size".to_owned()));
        }
        let weights: Option<(Matrix, Vec<Double>)> = family.loss.ift_trace_weight_derivs(
            &self.data.y,
            &fit.eta,
            &prior,
        );
        if let Some(w) = &weights {
            if !is_shape(&w.0, n, m) || w.1.len() != n {
                assert(weights == Some((w.0, w.1)));
                return Err(GamrsError::InvalidParameter("fit has the wrong size".to_owned()));
            }
        }
        let ghost q = ShapeReading { tk, jets, dmu, dmu2, h_diag, dbeta, weights, sum_dls };
        assert(self.shape_read::<F>(*fit, *family, *lv1, rho@, q));
        let ctx: ShapeGradCtx = ShapeGradCtx {
            x: &self.data.x_design,
            lv1,
            jets: &jets,
            dmu: &dmu,
            dmu2: &dmu2,
            h_diag: &h_diag,
            dbeta: &dbeta,
            weights: &weights,
            sum_dls: &sum_dls,
        };
        assert(ctx == self.shape_ctx(lv1, &q));
        Ok(ctx.compute::<F>(m, fit.p))
    }
}

/// Whether first derivatives have the sizes they should have.
pub fn lv1_ok(l: &Level1ShapeDerivs, n: usize, m: usize) -> (b: bool)
    ensures
        b == l.fits(n as nat, m as nat),
{
    is_shape(&l.dth, n, m) && is_shape(&l.dmuth, n, m) && is_shape(&l.dmu2th, n, m) && l.dmu3.len() == n
}

} // verus!
