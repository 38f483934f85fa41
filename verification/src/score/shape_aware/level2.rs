//! The joint Hessian over smoothing and shape parameters, from the derivatives of
//! the deviance up to the fourth order.

use vstd::prelude::*;

use crate::arith::{lawful, minus, plus, times, total, total_from, Arithmetic};
use crate::dense::{
    add_penalty, add_penalty_of, column, column_of, dot, dot_of, dot_onto, dot_onto_of, mat_mul,
    mat_mul_of, mat_t_vec, mat_t_vec_of, mat_vec, mat_vec_of, scaled, scaled_of, sum_onto, sum_over,
    times_vec, times_vec_of, trace_product, trace_product_of,
};
use crate::double::{half, lit, two, zero, Double, MINUS_HALF};
use crate::inner::penalties_fit;
use crate::matrix::{fill_vec, Matrix};
use crate::score::hess_ift::{
    b1_column, b1_of, build_xtwx, build_xtwx_of, mirror, mirrored, s_beta_of,
};

verus! {

/// Derivatives of each observation's deviance that the gradient needs. The
/// columns of the matrices are the shape parameters.
pub struct Level1ShapeDerivs {
    /// Along the shape parameters.
    pub dth: Matrix,
    /// Along the mean and a shape parameter.
    pub dmuth: Matrix,
    /// Twice along the mean, and along a shape parameter.
    pub dmu2th: Matrix,
    /// Three times along the mean.
    pub dmu3: Vec<Double>,
}

impl Level1ShapeDerivs {
    /// Derivatives of `n` observations along `m` shape parameters.
    pub open spec fn fits(&self, n: nat, m: nat) -> bool {
        &&& self.dth.shape(n, m)
        &&& self.dmuth.shape(n, m)
        &&& self.dmu2th.shape(n, m)
        &&& self.dmu3@.len() == n
    }
}

/// Derivatives of each observation's deviance that the Hessian needs beyond
/// those. A pair of shape parameters has one column.
pub struct Level2ShapeDerivs {
    /// Along a pair of shape parameters.
    pub dth2: Matrix,
    /// Along the mean and a pair.
    pub dmu_th2: Matrix,
    /// Twice along the mean, and along a pair.
    pub dmu2_th2: Matrix,
    /// Three times along the mean, and along a shape parameter.
    pub dmu3_th: Matrix,
    /// Four times along the mean.
    pub dmu4: Vec<Double>,
}

impl Level2ShapeDerivs {
    /// Derivatives of `n` observations along `m` shape parameters.
    pub open spec fn fits(&self, n: nat, m: nat) -> bool {
        &&& self.dth2.shape(n, pairs(m as int) as nat)
        &&& self.dmu_th2.shape(n, pairs(m as int) as nat)
        &&& self.dmu2_th2.shape(n, pairs(m as int) as nat)
        &&& self.dmu3_th.shape(n, m)
        &&& self.dmu4@.len() == n
    }
}

/// Number of pairs among `n` shape parameters whose first is one of the first `a`.
pub open spec fn pairs_before(a: int, n: int) -> int
    decreases a,
{
    if a <= 0 {
        0
    } else {
        pairs_before(a - 1, n) + (n - (a - 1))
    }
}

/// Number of pairs among `n` shape parameters, a parameter with itself included.
pub open spec fn pairs(n: int) -> int {
    pairs_before(n, n)
}

/// The column of the pair `a <= b` among `n` shape parameters: the pairs of the
/// parameters before `a` come first.
pub open spec fn pair_index(a: int, b: int, n: int) -> int {
    pairs_before(a, n) + (b - a)
}

proof fn lemma_pairs_grow(a: int, c: int, n: int)
    requires
        0 <= a <= c <= n,
    ensures
        0 <= pairs_before(a, n) <= pairs_before(c, n),
        a < c ==> pairs_before(a, n) + (n - a) <= pairs_before(c, n),
    decreases c,
{
    if a < c {
        lemma_pairs_grow(a, c - 1, n);
    } else if a > 0 {
        lemma_pairs_grow(a - 1, a - 1, n);
    }
}

/// There are `n (n + 1) / 2` pairs.
pub proof fn law_number_of_pairs(n: int)
    requires
        0 <= n,
    ensures
        2 * pairs(n) == n * (n + 1),
        0 <= pairs(n),
{
    lemma_pairs_grow(n, n, n);
    lemma_pairs_closed(n, n);
    assert(n * (2 * n - n + 1) == n * (n + 1)) by (nonlinear_arith);
}

proof fn lemma_pairs_closed(a: int, n: int)
    requires
        0 <= a <= n,
    ensures
        2 * pairs_before(a, n) == a * (2 * n - a + 1),
    decreases a,
{
    if a > 0 {
        lemma_pairs_closed(a - 1, n);
        assert((a - 1) * (2 * n - (a - 1) + 1) + 2 * (n - (a - 1)) == a * (2 * n - a + 1))
            by (nonlinear_arith);
    } else {
        assert(a * (2 * n - a + 1) == 0) by (nonlinear_arith)
            requires
                a == 0,
        ;
    }
}

/// Each pair has a column of its own, and the columns are those below the number
/// of pairs.
pub proof fn law_pair_index_is_one_to_one(a: int, b: int, c: int, d: int, n: int)
    requires
        0 <= a <= b < n,
        0 <= c <= d < n,
    ensures
        0 <= pair_index(a, b, n) < pairs(n),
        pair_index(a, b, n) == pair_index(c, d, n) ==> a == c && b == d,
{
    lemma_pairs_grow(a, n, n);
    if a < c {
        lemma_pairs_grow(a, c, n);
    }
    if c < a {
        lemma_pairs_grow(c, a, n);
    }
}

/// The column of the pair `a <= b` among `n` shape parameters.
pub fn shape_pair_index(a: usize, b: usize, n: usize) -> (r: usize)
    requires
        a <= b < n,
        pairs(n as int) <= usize::MAX,
    ensures
        r == pair_index(a as int, b as int, n as int),
        r < pairs(n as int),
{
    proof {
        law_pair_index_is_one_to_one(a as int, b as int, a as int, b as int, n as int);
    }
    let mut before: usize = 0;
    for k in 0..a
        invariant
            a < n,
            pairs(n as int) <= usize::MAX,
            before == pairs_before(k as int, n as int),
    {
        proof {
            lemma_pairs_grow(k as int + 1, n as int, n as int);
        }
        before = before + (n - k);
    }
    proof {
        lemma_pairs_grow(a as int, n as int, n as int);
    }
    before + (b - a)
}

/// Number of pairs among `n` shape parameters, if it can be counted.
pub fn number_of_pairs(n: usize) -> (r: Option<usize>)
    ensures
        match r {
            Some(k) => k == pairs(n as int),
            None => pairs(n as int) > usize::MAX,
        },
{
    let mut sum: usize = 0;
    for k in 0..n
        invariant
            sum == pairs_before(k as int, n as int),
    {
        let more: usize = n - k;
        if more > usize::MAX - sum {
            proof {
                lemma_pairs_grow(k as int + 1, n as int, n as int);
            }
            return None;
        }
        sum = sum + more;
    }
    Some(sum)
}

/// What the joint Hessian is computed from.
pub struct Level2Ctx<'a> {
    /// Design matrix.
    pub x: &'a Matrix,
    /// One penalty per smooth term.
    pub s_list: &'a Vec<Matrix>,
    /// Smoothing parameters.
    pub lambda: &'a Vec<Double>,
    /// Coefficients.
    pub beta: &'a Vec<Double>,
    /// `A^-1`.
    pub a_inv: &'a Matrix,
    /// First derivatives.
    pub lv1: &'a Level1ShapeDerivs,
    /// Second derivatives.
    pub lv2: &'a Level2ShapeDerivs,
    /// Weighted derivative of each deviance along the mean.
    pub dmu: &'a Vec<Double>,
    /// Weighted second derivative of each deviance along the mean.
    pub dmu2: &'a Vec<Double>,
    /// Second derivatives of the saturated log-likelihood, one for each pair of
    /// shape parameters.
    pub sum_d2ls: &'a Vec<Double>,
    /// Number of shape parameters.
    pub n_shape: usize,
}

impl<'a> Level2Ctx<'a> {
    /// Number of smooth terms.
    pub open spec fn terms(&self) -> nat {
        self.s_list@.len()
    }

    /// Number of parameters.
    pub open spec fn axes(&self) -> nat {
        self.s_list@.len() + self.n_shape as nat
    }

    /// The shapes agree.
    pub open spec fn wf(&self) -> bool {
        let n = self.x@.len();
        let p = self.beta@.len();
        &&& self.x.shape(n, p)
        &&& penalties_fit(self.s_list@, p)
        &&& self.lambda@.len() == self.s_list@.len()
        &&& self.a_inv.square(p)
        &&& self.lv1.fits(n, self.n_shape as nat)
        &&& self.lv2.fits(n, self.n_shape as nat)
        &&& self.dmu@.len() == n
        &&& self.dmu2@.len() == n
        &&& self.sum_d2ls@.len() == pairs(self.n_shape as int)
        &&& self.axes() <= usize::MAX
    }

    /// Parameter `k` as a shape parameter.
    pub open spec fn shape(&self, k: int) -> int {
        k - self.terms()
    }

    /// The derivative of the coefficients along parameter `k`.
    pub open spec fn b1<F: Arithmetic>(&self, k: int) -> Seq<Double> {
        if k < self.terms() {
            b1_of::<F>(self.s_list@, self.lambda@, self.a_inv@, self.beta@, k)
        } else {
            times_vec_of::<F>(
                lit(MINUS_HALF),
                mat_vec_of::<F>(
                    self.a_inv@,
                    mat_t_vec_of::<F>(
                        self.x@,
                        self.beta@.len(),
                        column_of(self.lv1.dmuth@, self.shape(k)),
                    ),
                ),
            )
        }
    }

    /// The derivative of the linear predictor along parameter `k`.
    pub open spec fn eta1<F: Arithmetic>(&self, k: int) -> Seq<Double> {
        mat_vec_of::<F>(self.x@, self.b1::<F>(k))
    }

    /// `S_k b`.
    pub open spec fn s_beta<F: Arithmetic>(&self, k: int) -> Seq<Double> {
        s_beta_of::<F>(self.s_list@, self.beta@, k)
    }

    /// `sum_j lambda_j S_j v`.
    pub open spec fn penalty_times<F: Arithmetic>(&self, v: Seq<Double>) -> Seq<Double> {
        Seq::new(
            self.beta@.len(),
            |r: int|
                total::<F>(
                    |j: int| times::<F>(self.lambda@[j], mat_vec_of::<F>(self.s_list@[j]@, v)[r]),
                    self.lambda@.len(),
                ),
        )
    }

    /// The derivative of the weights along parameter `k`.
    pub open spec fn w1<F: Arithmetic>(&self, k: int) -> Seq<Double> {
        Seq::new(
            self.x@.len(),
            |i: int|
                {
                    let through = times::<F>(
                        times::<F>(half(), self.lv1.dmu3@[i]),
                        self.eta1::<F>(k)[i],
                    );
                    if k < self.terms() {
                        through
                    } else {
                        plus::<F>(
                            through,
                            times::<F>(half(), self.lv1.dmu2th@[i][self.shape(k)]),
                        )
                    }
                },
        )
    }

    /// `X' diag(w) X`, with `lambda_k S_k` added where `penal` says so.
    pub open spec fn curved<F: Arithmetic>(&self, w: Seq<Double>, k: int, penal: bool) -> Seq<Seq<Double>> {
        let c = build_xtwx_of::<F>(self.x@, self.beta@.len(), w);
        if penal {
            add_penalty_of::<F>(c, self.s_list@[k]@, self.lambda@[k])
        } else {
            c
        }
    }

    /// `A^-1` times the derivative of `A` along parameter `k`.
    pub open spec fn ai_a1<F: Arithmetic>(&self, k: int) -> Seq<Seq<Double>> {
        mat_mul_of::<F>(
            self.a_inv@,
            self.curved::<F>(self.w1::<F>(k), k, k < self.terms()),
            self.beta@.len(),
        )
    }

    /// The data's part of the right-hand side for the second derivative of the
    /// coefficients.
    pub open spec fn rhs_w<F: Arithmetic>(&self, i: int, k: int) -> Seq<Double> {
        Seq::new(
            self.x@.len(),
            |r: int|
                {
                    let a = times::<F>(
                        times::<F>(self.lv1.dmu3@[r].neg_spec(), self.eta1::<F>(i)[r]),
                        self.eta1::<F>(k)[r],
                    );
                    let b = if k >= self.terms() {
                        minus::<F>(
                            a,
                            times::<F>(self.lv1.dmuth@[r][self.shape(k)], self.eta1::<F>(i)[r]),
                        )
                    } else {
                        a
                    };
                    if i >= self.terms() {
                        minus::<F>(
                            b,
                            times::<F>(self.lv1.dmuth@[r][self.shape(i)], self.eta1::<F>(k)[r]),
                        )
                    } else {
                        b
                    }
                },
        )
    }

    /// The column of the pair of shape parameters `i <= k`.
    pub open spec fn pair(&self, i: int, k: int) -> int {
        pair_index(self.shape(i), self.shape(k), self.n_shape as int)
    }

    /// The right-hand side for the second derivative of the coefficients.
    pub open spec fn rhs<F: Arithmetic>(&self, i: int, k: int) -> Seq<Double> {
        let p = self.beta@.len();
        let data = mat_t_vec_of::<F>(self.x@, p, self.rhs_w::<F>(i, k));
        Seq::new(
            p,
            |r: int|
                {
                    let a = if k < self.terms() {
                        minus::<F>(
                            data[r],
                            times::<F>(
                                times::<F>(two(), self.lambda@[k]),
                                mat_vec_of::<F>(self.s_list@[k]@, self.b1::<F>(i))[r],
                            ),
                        )
                    } else {
                        data[r]
                    };
                    let b = if i < self.terms() {
                        minus::<F>(
                            a,
                            times::<F>(
                                times::<F>(two(), self.lambda@[i]),
                                mat_vec_of::<F>(self.s_list@[i]@, self.b1::<F>(k))[r],
                            ),
                        )
                    } else {
                        a
                    };
                    let c = if i == k && i < self.terms() {
                        minus::<F>(
                            b,
                            times::<F>(
                                times::<F>(two(), self.lambda@[i]),
                                self.s_beta::<F>(i)[r],
                            ),
                        )
                    } else {
                        b
                    };
                    if i >= self.terms() && k >= self.terms() {
                        minus::<F>(
                            c,
                            mat_t_vec_of::<F>(
                                self.x@,
                                p,
                                column_of(self.lv2.dmu_th2@, self.pair(i, k)),
                            )[r],
                        )
                    } else {
                        c
                    }
                },
        )
    }

    /// The second derivative of the coefficients along parameters `i` and `k`.
    pub open spec fn b2<F: Arithmetic>(&self, i: int, k: int) -> Seq<Double> {
        scaled_of::<F>(mat_vec_of::<F>(self.a_inv@, self.rhs::<F>(i, k)), half())
    }

    /// The second derivative of the linear predictor along parameters `i` and
    /// `k`.
    pub open spec fn eta2<F: Arithmetic>(&self, i: int, k: int) -> Seq<Double> {
        mat_vec_of::<F>(self.x@, self.b2::<F>(i, k))
    }

    /// The second derivative of the deviance along parameters `i` and `k`.
    pub open spec fn d2<F: Arithmetic>(&self, i: int, k: int) -> Double {
        let n = self.x@.len();
        let a = total::<F>(
            |r: int|
                times::<F>(
                    times::<F>(self.dmu2@[r], self.eta1::<F>(i)[r]),
                    self.eta1::<F>(k)[r],
                ),
            n,
        );
        let b = dot_onto_of::<F>(a, self.dmu@, self.eta2::<F>(i, k));
        let c = if i >= self.terms() && k >= self.terms() {
            total_from::<F>(b, |r: int| self.lv2.dth2@[r][self.pair(i, k)], n)
        } else {
            b
        };
        let d = if i >= self.terms() {
            dot_onto_of::<F>(c, column_of(self.lv1.dmuth@, self.shape(i)), self.eta1::<F>(k))
        } else {
            c
        };
        if k >= self.terms() {
            dot_onto_of::<F>(d, column_of(self.lv1.dmuth@, self.shape(k)), self.eta1::<F>(i))
        } else {
            d
        }
    }

    /// The second derivative of the penalty along parameters `i` and `k`.
    pub open spec fn p2<F: Arithmetic>(&self, i: int, k: int) -> Double {
        let a = dot_onto_of::<F>(
            zero(),
            times_vec_of::<F>(two(), self.b2::<F>(i, k)),
            self.penalty_times::<F>(self.beta@),
        );
        let b = dot_onto_of::<F>(
            a,
            times_vec_of::<F>(two(), self.b1::<F>(i)),
            self.penalty_times::<F>(self.b1::<F>(k)),
        );
        let c = if k < self.terms() {
            plus::<F>(
                b,
                times::<F>(
                    times::<F>(two(), self.lambda@[k]),
                    dot_of::<F>(self.b1::<F>(i), self.s_beta::<F>(k)),
                ),
            )
        } else {
            b
        };
        let d = if i < self.terms() {
            plus::<F>(
                c,
                times::<F>(
                    times::<F>(two(), self.lambda@[i]),
                    dot_of::<F>(self.b1::<F>(k), self.s_beta::<F>(i)),
                ),
            )
        } else {
            c
        };
        if i == k && i < self.terms() {
            plus::<F>(
                d,
                times::<F>(self.lambda@[i], dot_of::<F>(self.beta@, self.s_beta::<F>(i))),
            )
        } else {
            d
        }
    }

    /// Half the second derivative of the weights along parameters `i` and `k`.
    pub open spec fn w2<F: Arithmetic>(&self, i: int, k: int) -> Seq<Double> {
        Seq::new(
            self.x@.len(),
            |r: int|
                {
                    let a = plus::<F>(
                        times::<F>(
                            times::<F>(self.lv2.dmu4@[r], self.eta1::<F>(i)[r]),
                            self.eta1::<F>(k)[r],
                        ),
                        times::<F>(self.lv1.dmu3@[r], self.eta2::<F>(i, k)[r]),
                    );
                    let b = if i >= self.terms() {
                        plus::<F>(
                            a,
                            times::<F>(self.lv2.dmu3_th@[r][self.shape(i)], self.eta1::<F>(k)[r]),
                        )
                    } else {
                        a
                    };
                    let c = if k >= self.terms() {
                        plus::<F>(
                            b,
                            times::<F>(self.lv2.dmu3_th@[r][self.shape(k)], self.eta1::<F>(i)[r]),
                        )
                    } else {
                        b
                    };
                    let d = if i >= self.terms() && k >= self.terms() {
                        plus::<F>(c, self.lv2.dmu2_th2@[r][self.pair(i, k)])
                    } else {
                        c
                    };
                    times::<F>(half(), d)
                },
        )
    }

    /// The second derivative of the log determinant along parameters `i` and `k`.
    pub open spec fn ldet2<F: Arithmetic>(&self, i: int, k: int) -> Double {
        let p = self.beta@.len();
        let ai_a2 = mat_mul_of::<F>(
            self.a_inv@,
            self.curved::<F>(self.w2::<F>(i, k), i, i == k && i < self.terms()),
            p,
        );
        minus::<F>(
            total::<F>(|r: int| ai_a2[r][r], p),
            trace_product_of::<F>(self.ai_a1::<F>(i), self.ai_a1::<F>(k)),
        )
    }

    /// The second derivative of the saturated log-likelihood.
    pub open spec fn ls2(&self, i: int, k: int) -> Double {
        if i >= self.terms() && k >= self.terms() {
            self.sum_d2ls@[self.pair(i, k)]
        } else {
            zero()
        }
    }

    /// The Hessian's entry for `i <= k`:
    /// `(d2 + p2) / 2 - ls2 + ldet2 / 2`.
    pub open spec fn entry<F: Arithmetic>(&self, i: int, k: int) -> Double {
        plus::<F>(
            minus::<F>(
                times::<F>(half(), plus::<F>(self.d2::<F>(i, k), self.p2::<F>(i, k))),
                self.ls2(i, k),
            ),
            times::<F>(half(), self.ldet2::<F>(i, k)),
        )
    }

    /// The Hessian: the entries with `i <= k`, mirrored.
    pub open spec fn hessian<F: Arithmetic>(&self) -> Seq<Seq<Double>> {
        mirrored(self.axes(), |i: int, k: int| self.entry::<F>(i, k))
    }
}

/// First derivatives along every parameter.
struct FirstOrder {
    b1: Vec<Vec<Double>>,
    eta1: Vec<Vec<Double>>,
    ai_a1: Vec<Matrix>,
    s_beta_total: Vec<Double>,
}

impl<'a> Level2Ctx<'a> {
    spec fn first_of<F: Arithmetic>(&self, f: &FirstOrder) -> bool {
        &&& f.b1@.len() == self.axes()
        &&& f.eta1@.len() == self.axes()
        &&& f.ai_a1@.len() == self.axes()
        &&& forall|k: int|
            0 <= k < self.axes() ==> (#[trigger] f.b1@[k])@ == self.b1::<F>(k) && f.b1@[k]@.len()
                == self.beta@.len()
        &&& forall|k: int|
            0 <= k < self.axes() ==> (#[trigger] f.eta1@[k])@ == self.eta1::<F>(k) && f.eta1@[k]@.len()
                == self.x@.len()
        &&& forall|k: int|
            0 <= k < self.axes() ==> (#[trigger] f.ai_a1@[k])@ == self.ai_a1::<F>(k)
                && f.ai_a1@[k].square(self.beta@.len())
        &&& f.s_beta_total@ == self.penalty_times::<F>(self.beta@)
    }

    fn b1_at<F: Arithmetic>(&self, k: usize) -> (r: Vec<Double>)
        requires
            lawful::<F>(),
            self.wf(),
            k < self.axes(),
        ensures
            r@ == self.b1::<F>(k as int),
            r@.len() == self.beta@.len(),
    {
        let m: usize = self.s_list.len();
        if k < m {
            b1_column::<F>(self.s_list, self.lambda, self.a_inv, self.beta, k)
        } else {
            let c: Vec<Double> = column(&self.lv1.dmuth, k - m);
            let xt_v: Vec<Double> = mat_t_vec::<F>(self.x, &c);
            let ainv_v: Vec<Double> = mat_vec::<F>(self.a_inv, &xt_v);
            times_vec::<F>(lit(MINUS_HALF), &ainv_v)
        }
    }

    fn penalty_on<F: Arithmetic>(&self, v: &Vec<Double>) -> (r: Vec<Double>)
        requires
            lawful::<F>(),
            self.wf(),
            v@.len() == self.beta@.len(),
        ensures
            r@ == self.penalty_times::<F>(v@),
    {
        let m: usize = self.s_list.len();
        let p: usize = self.beta.len();
        let mut sv: Vec<Vec<Double>> = Vec::new();
        for j in 0..m
            invariant
                lawful::<F>(),
                self.wf(),
                m == self.s_list@.len(),
                v@.len() == self.beta@.len(),
                sv@.len() == j,
                forall|i: int|
                    0 <= i < j ==> (#[trigger] sv@[i])@ == mat_vec_of::<F>(self.s_list@[i]@, v@)
                        && sv@[i]@.len() == self.beta@.len(),
        {
            assert(self.s_list@[j as int].square(self.beta@.len()));
            sv.push(mat_vec::<F>(&self.s_list[j], v));
        }
        let entry = |r: usize| -> (x: Double)
            requires
                r < p,
            ensures
                x == total::<F>(
                    |j: int|
                        times::<F>(
                            self.lambda@[j],
                            mat_vec_of::<F>(self.s_list@[j]@, v@)[r as int],
                        ),
                    self.lambda@.len(),
                ),
            {
                let term = |j: usize| -> (t: Double)
                    requires
                        j < m,
                    ensures
                        t == times::<F>(
                            self.lambda@[j as int],
                            mat_vec_of::<F>(self.s_list@[j as int]@, v@)[r as int],
                        ),
                    {
                        assert(sv@[j as int]@ == mat_vec_of::<F>(self.s_list@[j as int]@, v@));
                        times::<F>(self.lambda[j], sv[j][r])
                    };
                sum_over::<F, _>(
                    m,
                    term,
                    Ghost(
                        |j: int|
                            times::<F>(
                                self.lambda@[j],
                                mat_vec_of::<F>(self.s_list@[j]@, v@)[r as int],
                            ),
                    ),
                )
            };
        let out: Vec<Double> = fill_vec(p, entry);
        assert(out@ =~= self.penalty_times::<F>(v@));
        out
    }

    fn curve<F: Arithmetic>(&self, w: &Vec<Double>, k: usize, penal: bool) -> (r: Matrix)
        requires
            lawful::<F>(),
            self.wf(),
            w@.len() == self.x@.len(),
            penal ==> k < self.terms(),
        ensures
            r.square(self.beta@.len()),
            r@ == self.curved::<F>(w@, k as int, penal),
    {
        let c: Matrix = build_xtwx::<F>(self.x, w);
        if penal {
            assert(self.s_list@[k as int].square(self.beta@.len()));
            add_penalty::<F>(&c, &self.s_list[k], self.lambda[k])
        } else {
            c
        }
    }

    fn weights1<F: Arithmetic>(&self, k: usize, eta1: &Vec<Double>) -> (r: Vec<Double>)
        requires
            lawful::<F>(),
            self.wf(),
            k < self.axes(),
            eta1@ == self.eta1::<F>(k as int),
            eta1@.len() == self.x@.len(),
        ensures
            r@ == self.w1::<F>(k as int),
    {
        let m: usize = self.s_list.len();
        let entry = |i: usize| -> (v: Double)
            requires
                i < self.x@.len(),
            ensures
                v == self.w1::<F>(k as int)[i as int],
            {
                let through: Double = times::<F>(times::<F>(half(), self.lv1.dmu3[i]), eta1[i]);
                if k < m {
                    through
                } else {
                    plus::<F>(through, times::<F>(half(), self.lv1.dmu2th.get(i, k - m)))
                }
            };
        let r: Vec<Double> = fill_vec(self.x.rows.len(), entry);
        assert(r@ =~= self.w1::<F>(k as int));
        r
    }

    fn first<F: Arithmetic>(&self) -> (f: FirstOrder)
        requires
            lawful::<F>(),
            self.wf(),
        ensures
            self.first_of::<F>(&f),
    {
        let ntot: usize = self.s_list.len() + self.n_shape;
        let m: usize = self.s_list.len();
        let mut b1: Vec<Vec<Double>> = Vec::new();
        let mut eta1: Vec<Vec<Double>> = Vec::new();
        let mut ai_a1: Vec<Matrix> = Vec::new();
        for k in 0..ntot
            invariant
                lawful::<F>(),
                self.wf(),
                ntot == self.axes(),
                m == self.terms(),
                b1@.len() == k,
                eta1@.len() == k,
                ai_a1@.len() == k,
                forall|i: int|
                    0 <= i < k ==> (#[trigger] b1@[i])@ == self.b1::<F>(i) && b1@[i]@.len()
                        == self.beta@.len(),
                forall|i: int|
                    0 <= i < k ==> (#[trigger] eta1@[i])@ == self.eta1::<F>(i) && eta1@[i]@.len()
                        == self.x@.len(),
                forall|i: int|
                    0 <= i < k ==> (#[trigger] ai_a1@[i])@ == self.ai_a1::<F>(i) && ai_a1@[i].square(
                        self.beta@.len(),
                    ),
        {
            let b: Vec<Double> = self.b1_at::<F>(k);
            let e: Vec<Double> = mat_vec::<F>(self.x, &b);
            let w: Vec<Double> = self.weights1::<F>(k, &e);
            let a1: Matrix = self.curve::<F>(&w, k, k < m);
            ai_a1.push(mat_mul::<F>(self.a_inv, &a1));
            b1.push(b);
            eta1.push(e);
        }
        let s_beta_total: Vec<Double> = self.penalty_on::<F>(self.beta);
        FirstOrder { b1, eta1, ai_a1, s_beta_total }
    }

    fn second_rhs<F: Arithmetic>(&self, f: &FirstOrder, i: usize, k: usize) -> (r: Vec<Double>)
        requires
            lawful::<F>(),
            self.wf(),
            self.first_of::<F>(f),
            i <= k < self.axes(),
        ensures
            r@ == self.rhs::<F>(i as int, k as int),
    {
        let m: usize = self.s_list.len();
        let n: usize = self.x.rows.len();
        let p: usize = self.beta.len();
        assert(f.eta1@[i as int]@ == self.eta1::<F>(i as int));
        assert(f.eta1@[k as int]@ == self.eta1::<F>(k as int));
        assert(f.b1@[i as int]@ == self.b1::<F>(i as int));
        assert(f.b1@[k as int]@ == self.b1::<F>(k as int));
        let data_entry = |r: usize| -> (v: Double)
            requires
                r < n,
            ensures
                v == self.rhs_w::<F>(i as int, k as int)[r as int],
            {
                let mut v: Double = times::<F>(
                    times::<F>(self.lv1.dmu3[r].neg(), f.eta1[i][r]),
                    f.eta1[k][r],
                );
                if k >= m {
                    v = minus::<F>(v, times::<F>(self.lv1.dmuth.get(r, k - m), f.eta1[i][r]));
                }
                if i >= m {
                    v = minus::<F>(v, times::<F>(self.lv1.dmuth.get(r, i - m), f.eta1[k][r]));
                }
                v
            };
        let rhs_w: Vec<Double> = fill_vec(n, data_entry);
        assert(rhs_w@ =~= self.rhs_w::<F>(i as int, k as int));
        let data: Vec<Double> = mat_t_vec::<F>(self.x, &rhs_w);
        let s_k_b1_i: Vec<Double> = if k < m {
            assert(self.s_list@[k as int].square(self.beta@.len()));
            mat_vec::<F>(&self.s_list[k], &f.b1[i])
        } else {
            Vec::new()
        };
        let s_i_b1_k: Vec<Double> = if i < m {
            assert(self.s_list@[i as int].square(self.beta@.len()));
            mat_vec::<F>(&self.s_list[i], &f.b1[k])
        } else {
            Vec::new()
        };
        let s_i_beta: Vec<Double> = if i < m {
            assert(self.s_list@[i as int].square(self.beta@.len()));
            mat_vec::<F>(&self.s_list[i], self.beta)
        } else {
            Vec::new()
        };
        let xt_v: Vec<Double> = if i >= m && k >= m {
            let pair: usize = self.pair_at(i, k);
            let c: Vec<Double> = column(&self.lv2.dmu_th2, pair);
            mat_t_vec::<F>(self.x, &c)
        } else {
            Vec::new()
        };
        let entry = |r: usize| -> (v: Double)
            requires
                r < p,
            ensures
                v == self.rhs::<F>(i as int, k as int)[r as int],
            {
                let mut v: Double = data[r];
                if k < m {
                    v = minus::<F>(v, times::<F>(times::<F>(two(), self.lambda[k]), s_k_b1_i[r]));
                }
                if i < m {
                    v = minus::<F>(v, times::<F>(times::<F>(two(), self.lambda[i]), s_i_b1_k[r]));
                }
                if i == k && i < m {
                    v = minus::<F>(v, times::<F>(times::<F>(two(), self.lambda[i]), s_i_beta[r]));
                }
                if i >= m && k >= m {
                    v = minus::<F>(v, xt_v[r]);
                }
                v
            };
        let out: Vec<Double> = fill_vec(p, entry);
        assert(out@ =~= self.rhs::<F>(i as int, k as int));
        out
    }

    fn pair_at(&self, i: usize, k: usize) -> (r: usize)
        requires
            self.wf(),
            self.terms() <= i <= k < self.axes(),
        ensures
            r == self.pair(i as int, k as int),
            r < pairs(self.n_shape as int),
    {
        let m: usize = self.s_list.len();
        shape_pair_index(i - m, k - m, self.n_shape)
    }

    fn deviance_term<F: Arithmetic>(&self, f: &FirstOrder, eta2: &Vec<Double>, i: usize, k: usize) -> (r: Double)
        requires
            lawful::<F>(),
            self.wf(),
            self.first_of::<F>(f),
            i <= k < self.axes(),
            eta2@ == self.eta2::<F>(i as int, k as int),
            eta2@.len() == self.x@.len(),
        ensures
            r == self.d2::<F>(i as int, k as int),
    {
        let m: usize = self.s_list.len();
        let n: usize = self.x.rows.len();
        assert(f.eta1@[i as int]@ == self.eta1::<F>(i as int));
        assert(f.eta1@[k as int]@ == self.eta1::<F>(k as int));
        let curve = |r: usize| -> (v: Double)
            requires
                r < n,
            ensures
                v == times::<F>(
                    times::<F>(self.dmu2@[r as int], self.eta1::<F>(i as int)[r as int]),
                    self.eta1::<F>(k as int)[r as int],
                ),
            { times::<F>(times::<F>(self.dmu2[r], f.eta1[i][r]), f.eta1[k][r]) };
        let mut acc: Double = sum_over::<F, _>(
            n,
            curve,
            Ghost(
                |r: int|
                    times::<F>(
                        times::<F>(self.dmu2@[r], self.eta1::<F>(i as int)[r]),
                        self.eta1::<F>(k as int)[r],
                    ),
            ),
        );
        acc = dot_onto::<F>(acc, self.dmu, eta2);
        if i >= m && k >= m {
            let pair: usize = self.pair_at(i, k);
            let own = |r: usize| -> (v: Double)
                requires
                    r < n,
                ensures
                    v == self.lv2.dth2@[r as int][pair as int],
                { self.lv2.dth2.get(r, pair) };
            acc = sum_onto::<F, _>(
                acc,
                n,
                own,
                Ghost(|r: int| self.lv2.dth2@[r][self.pair(i as int, k as int)]),
            );
        }
        if i >= m {
            let c: Vec<Double> = column(&self.lv1.dmuth, i - m);
            acc = dot_onto::<F>(acc, &c, &f.eta1[k]);
        }
        if k >= m {
            let c: Vec<Double> = column(&self.lv1.dmuth, k - m);
            acc = dot_onto::<F>(acc, &c, &f.eta1[i]);
        }
        acc
    }

    fn penalty_term<F: Arithmetic>(&self, f: &FirstOrder, b2: &Vec<Double>, i: usize, k: usize) -> (r: Double)
        requires
            lawful::<F>(),
            self.wf(),
            self.first_of::<F>(f),
            i <= k < self.axes(),
            b2@ == self.b2::<F>(i as int, k as int),
            b2@.len() == self.beta@.len(),
        ensures
            r == self.p2::<F>(i as int, k as int),
    {
        let m: usize = self.s_list.len();
        assert(f.b1@[i as int]@ == self.b1::<F>(i as int));
        assert(f.b1@[k as int]@ == self.b1::<F>(k as int));
        let twice_b2: Vec<Double> = times_vec::<F>(two(), b2);
        let mut acc: Double = dot_onto::<F>(zero(), &twice_b2, &f.s_beta_total);
        let twice_b1: Vec<Double> = times_vec::<F>(two(), &f.b1[i]);
        let s_b1_k: Vec<Double> = self.penalty_on::<F>(&f.b1[k]);
        acc = dot_onto::<F>(acc, &twice_b1, &s_b1_k);
        if k < m {
            assert(self.s_list@[k as int].square(self.beta@.len()));
            let sb: Vec<Double> = mat_vec::<F>(&self.s_list[k], self.beta);
            acc = plus::<F>(
                acc,
                times::<F>(times::<F>(two(), self.lambda[k]), dot::<F>(&f.b1[i], &sb)),
            );
        }
        if i < m {
            assert(self.s_list@[i as int].square(self.beta@.len()));
            let sb: Vec<Double> = mat_vec::<F>(&self.s_list[i], self.beta);
            acc = plus::<F>(
                acc,
                times::<F>(times::<F>(two(), self.lambda[i]), dot::<F>(&f.b1[k], &sb)),
            );
            if i == k {
                acc = plus::<F>(acc, times::<F>(self.lambda[i], dot::<F>(self.beta, &sb)));
            }
        }
        acc
    }

    fn weights2<F: Arithmetic>(&self, f: &FirstOrder, eta2: &Vec<Double>, i: usize, k: usize) -> (r: Vec<Double>)
        requires
            lawful::<F>(),
            self.wf(),
            self.first_of::<F>(f),
            i <= k < self.axes(),
            eta2@ == self.eta2::<F>(i as int, k as int),
            eta2@.len() == self.x@.len(),
        ensures
            r@ == self.w2::<F>(i as int, k as int),
    {
        let m: usize = self.s_list.len();
        let n: usize = self.x.rows.len();
        assert(f.eta1@[i as int]@ == self.eta1::<F>(i as int));
        assert(f.eta1@[k as int]@ == self.eta1::<F>(k as int));
        let pair: usize = if i >= m {
            self.pair_at(i, k)
        } else {
            0
        };
        let entry = |r: usize| -> (v: Double)
            requires
                r < n,
            ensures
                v == self.w2::<F>(i as int, k as int)[r as int],
            {
                let mut v: Double = plus::<F>(
                    times::<F>(times::<F>(self.lv2.dmu4[r], f.eta1[i][r]), f.eta1[k][r]),
                    times::<F>(self.lv1.dmu3[r], eta2[r]),
                );
                if i >= m {
                    v = plus::<F>(v, times::<F>(self.lv2.dmu3_th.get(r, i - m), f.eta1[k][r]));
                }
                if k >= m {
                    v = plus::<F>(v, times::<F>(self.lv2.dmu3_th.get(r, k - m), f.eta1[i][r]));
                }
                if i >= m && k >= m {
                    v = plus::<F>(v, self.lv2.dmu2_th2.get(r, pair));
                }
                times::<F>(half(), v)
            };
        let r: Vec<Double> = fill_vec(n, entry);
        assert(r@ =~= self.w2::<F>(i as int, k as int));
        r
    }

    fn log_det_term<F: Arithmetic>(&self, f: &FirstOrder, eta2: &Vec<Double>, i: usize, k: usize) -> (r: Double)
        requires
            lawful::<F>(),
            self.wf(),
            self.first_of::<F>(f),
            i <= k < self.axes(),
            eta2@ == self.eta2::<F>(i as int, k as int),
            eta2@.len() == self.x@.len(),
        ensures
            r == self.ldet2::<F>(i as int, k as int),
    {
        let m: usize = self.s_list.len();
        let p: usize = self.beta.len();
        assert(f.ai_a1@[i as int]@ == self.ai_a1::<F>(i as int));
        assert(f.ai_a1@[k as int]@ == self.ai_a1::<F>(k as int));
        let w2: Vec<Double> = self.weights2::<F>(f, eta2, i, k);
        let a2: Matrix = self.curve::<F>(&w2, i, i == k && i < m);
        let ai_a2: Matrix = mat_mul::<F>(self.a_inv, &a2);
        let diag = |r: usize| -> (v: Double)
            requires
                r < p,
            ensures
                v == ai_a2@[r as int][r as int],
            { ai_a2.get(r, r) };
        let tr1: Double = sum_over::<F, _>(p, diag, Ghost(|r: int| ai_a2@[r][r]));
        let tr2: Double = trace_product::<F>(&f.ai_a1[i], &f.ai_a1[k]);
        minus::<F>(tr1, tr2)
    }

    /// Computes the joint Hessian.
    pub fn compute<F: Arithmetic>(&self) -> (r: Matrix)
        requires
            lawful::<F>(),
            self.wf(),
        ensures
            r.square(self.axes()),
            r@ == self.hessian::<F>(),
    {
        let m: usize = self.s_list.len();
        let ntot: usize = self.s_list.len() + self.n_shape;
        let f: FirstOrder = self.first::<F>();
        let entry = |i: usize, k: usize| -> (v: Double)
            requires
                i <= k < ntot,
            ensures
                v == self.entry::<F>(i as int, k as int),
            {
                let rhs: Vec<Double> = self.second_rhs::<F>(&f, i, k);
                let solved: Vec<Double> = mat_vec::<F>(self.a_inv, &rhs);
                let b2: Vec<Double> = scaled::<F>(&solved, half());
                let eta2: Vec<Double> = mat_vec::<F>(self.x, &b2);
                let d2: Double = self.deviance_term::<F>(&f, &eta2, i, k);
                let p2: Double = self.penalty_term::<F>(&f, &b2, i, k);
                let ldet2: Double = self.log_det_term::<F>(&f, &eta2, i, k);
                let ls2: Double = if i >= m {
                    self.sum_d2ls[self.pair_at(i, k)]
                } else {
                    zero()
                };
                plus::<F>(
                    minus::<F>(times::<F>(half(), plus::<F>(d2, p2)), ls2),
                    times::<F>(half(), ldet2),
                )
            };
        mirror(ntot, entry, Ghost(|i: int, k: int| self.entry::<F>(i, k)))
    }
}

} // verus!
