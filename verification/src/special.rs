//! Special functions: the log gamma function, its derivatives, and the series of
//! the Tweedie density.

pub mod laws;

use vstd::prelude::*;

use crate::arith::{
    exp, floor_int, lawful, ln, minus, natural, over, plus, power, sin, times, Arithmetic,
};
use crate::double::{half, lit, one, two, zero, Double, EPSILON, PI, THIRTY};

verus! {

/// Bits of the first coefficient of the Lanczos series.
pub const LANCZOS_0: u64 = 0x3fef_ffff_ffff_f950;

/// Bits of the coefficient at `x + 1`.
pub const LANCZOS_1: u64 = 0x4085_2429_b6c3_0b05;

/// Bits of the coefficient at `x + 2`.
pub const LANCZOS_2: u64 = 0xc093_ac8e_8ed4_171b;

/// Bits of the coefficient at `x + 3`.
pub const LANCZOS_3: u64 = 0x4088_1a96_61d3_b4d8;

/// Bits of the coefficient at `x + 4`.
pub const LANCZOS_4: u64 = 0xc066_13ae_51a3_2f5d;

/// Bits of the coefficient at `x + 5`.
pub const LANCZOS_5: u64 = 0x4029_03c2_7f8b_9c81;

/// Bits of the coefficient at `x + 6`.
pub const LANCZOS_6: u64 = 0xbfc1_bcb2_992b_2855;

/// Bits of the coefficient at `x + 7`.
pub const LANCZOS_7: u64 = 0x3ee4_f051_4e4e_324f;

/// Bits of the coefficient at `x + 8`.
pub const LANCZOS_8: u64 = 0x3e84_3550_8f3f_aeef;

/// Bits of 6.
pub const SIX: u64 = 0x4018_0000_0000_0000;

/// Bits of 7.
pub const SEVEN: u64 = 0x401c_0000_0000_0000;

/// Bits of 12.
pub const TWELVE: u64 = 0x4028_0000_0000_0000;

/// Bits of 42.
pub const FORTY_TWO: u64 = 0x4045_0000_0000_0000;

/// Bits of 120.
pub const C_120: u64 = 0x405e_0000_0000_0000;

/// Bits of 132.
pub const C_132: u64 = 0x4060_8000_0000_0000;

/// Bits of 691 / 32760.
pub const C_691_32760: u64 = 0x3f95_9959_9599_5996;

/// Bits of 3617 / 8160.
pub const C_3617_8160: u64 = 0x3fdc_5e5e_5e5e_5e5e;

/// Bits of 240.
pub const C_240: u64 = 0x406e_0000_0000_0000;

/// Bits of 252.
pub const C_252: u64 = 0x406f_8000_0000_0000;

/// Bits of -1.
pub const MINUS_ONE: u64 = 0xbff0_0000_0000_0000;

/// The coefficient at `x + i`, and the first one at 0.
pub open spec fn lanczos_coefficient(i: int) -> Double {
    if i == 0 {
        lit(LANCZOS_0)
    } else if i == 1 {
        lit(LANCZOS_1)
    } else if i == 2 {
        lit(LANCZOS_2)
    } else if i == 3 {
        lit(LANCZOS_3)
    } else if i == 4 {
        lit(LANCZOS_4)
    } else if i == 5 {
        lit(LANCZOS_5)
    } else if i == 6 {
        lit(LANCZOS_6)
    } else if i == 7 {
        lit(LANCZOS_7)
    } else {
        lit(LANCZOS_8)
    }
}

fn coefficient(i: u64) -> (c: Double)
    requires
        i <= 8,
    ensures
        c == lanczos_coefficient(i as int),
{
    if i == 0 {
        lit(LANCZOS_0)
    } else if i == 1 {
        lit(LANCZOS_1)
    } else if i == 2 {
        lit(LANCZOS_2)
    } else if i == 3 {
        lit(LANCZOS_3)
    } else if i == 4 {
        lit(LANCZOS_4)
    } else if i == 5 {
        lit(LANCZOS_5)
    } else if i == 6 {
        lit(LANCZOS_6)
    } else if i == 7 {
        lit(LANCZOS_7)
    } else {
        lit(LANCZOS_8)
    }
}

/// `c_0 + sum_{i <= n} c_i / (x + i)`.
pub open spec fn lanczos_sum<F: Arithmetic>(x: Double, n: nat) -> Double
    decreases n,
{
    if n == 0 {
        lanczos_coefficient(0)
    } else {
        plus::<F>(
            lanczos_sum::<F>(x, (n - 1) as nat),
            over::<F>(lanczos_coefficient(n as int), plus::<F>(x, natural::<F>(n as u64))),
        )
    }
}

/// The Lanczos approximation of the log gamma function.
pub open spec fn lanczos_of<F: Arithmetic>(v: Double) -> Double {
    let x = minus::<F>(v, one());
    let t = plus::<F>(plus::<F>(x, lit(SEVEN)), half());
    plus::<F>(
        minus::<F>(
            plus::<F>(
                times::<F>(half(), ln::<F>(times::<F>(two(), lit(PI)))),
                times::<F>(plus::<F>(x, half()), ln::<F>(t)),
            ),
            t,
        ),
        ln::<F>(lanczos_sum::<F>(x, 8)),
    )
}

fn lanczos<F: Arithmetic>(v: Double) -> (r: Double)
    requires
        lawful::<F>(),
    ensures
        r == lanczos_of::<F>(v),
{
    let x: Double = minus::<F>(v, one());
    let mut a: Double = coefficient(0);
    for i in 1u64..9u64
        invariant
            lawful::<F>(),
            a == lanczos_sum::<F>(x, (i - 1) as nat),
    {
        a = plus::<F>(a, over::<F>(coefficient(i), plus::<F>(x, natural::<F>(i))));
    }
    let t: Double = plus::<F>(plus::<F>(x, lit(SEVEN)), half());
    let lead: Double = times::<F>(half(), ln::<F>(times::<F>(two(), lit(PI))));
    let body: Double = times::<F>(plus::<F>(x, half()), ln::<F>(t));
    plus::<F>(minus::<F>(plus::<F>(lead, body), t), ln::<F>(a))
}

/// The log gamma function: the Lanczos approximation from 1/2 on, and its
/// reflection `ln(pi / sin(pi x)) - lngamma(1 - x)` below.
pub open spec fn log_gamma_of<F: Arithmetic>(x: Double) -> Double {
    if x.below(half()) {
        minus::<F>(
            ln::<F>(over::<F>(lit(PI), sin::<F>(times::<F>(lit(PI), x)))),
            lanczos_of::<F>(minus::<F>(one(), x)),
        )
    } else {
        lanczos_of::<F>(x)
    }
}

/// The log gamma function.
pub fn log_gamma<F: Arithmetic>(x: Double) -> (r: Double)
    requires
        lawful::<F>(),
    ensures
        r == log_gamma_of::<F>(x),
{
    if x.lt(half()) {
        let reflected: Double = ln::<F>(over::<F>(lit(PI), sin::<F>(times::<F>(lit(PI), x))));
        return minus::<F>(reflected, lanczos::<F>(minus::<F>(one(), x)));
    }
    lanczos::<F>(x)
}

/// The most steps that the recurrence takes. A double that adding 1 leads to 6
/// gets there in fewer.
pub const MOST_STEPS: u64 = 0xffff_ffff_ffff_ffff;

/// The recurrence of a polygamma function: `term(x)` is added for every `x` below
/// 6 on the way up, at most `n` of them.
pub open spec fn climbed<F: Arithmetic>(acc: Double, x: Double, second: bool, n: nat) -> (Double, Double)
    decreases n,
{
    if n == 0 || !x.below(lit(SIX)) {
        (acc, x)
    } else {
        climbed::<F>(
            if second {
                plus::<F>(acc, over::<F>(one(), times::<F>(x, x)))
            } else {
                minus::<F>(acc, over::<F>(one(), x))
            },
            plus::<F>(x, one()),
            second,
            (n - 1) as nat,
        )
    }
}

/// Where the recurrence ends.
pub open spec fn climb_of<F: Arithmetic>(x: Double, second: bool) -> (Double, Double) {
    climbed::<F>(zero(), x, second, MOST_STEPS as nat)
}

fn climb<F: Arithmetic>(x0: Double, second: bool) -> (r: (Double, Double))
    requires
        lawful::<F>(),
    ensures
        r == climb_of::<F>(x0, second),
{
    let mut x: Double = x0;
    let mut acc: Double = zero();
    let mut left: u64 = MOST_STEPS;
    while left > 0 && x.lt(lit(SIX))
        invariant
            lawful::<F>(),
            climb_of::<F>(x0, second) == climbed::<F>(acc, x, second, left as nat),
        decreases left,
    {
        acc = if second {
            plus::<F>(acc, over::<F>(one(), times::<F>(x, x)))
        } else {
            minus::<F>(acc, over::<F>(one(), x))
        };
        x = plus::<F>(x, one());
        left = left - 1;
    }
    (acc, x)
}

/// The derivative of the log gamma function: the recurrence up to 6, then the
/// asymptotic series through `x^-16`. What the series leaves out is below 4e-14
/// there.
pub open spec fn digamma_of<F: Arithmetic>(x0: Double) -> Double {
    let (acc, x) = climb_of::<F>(x0, false);
    let xinv = over::<F>(one(), x);
    let xinv2 = times::<F>(xinv, xinv);
    let t2 = times::<F>(xinv2, xinv2);
    let t3 = times::<F>(t2, xinv2);
    let t4 = times::<F>(t3, xinv2);
    let a = plus::<F>(acc, minus::<F>(ln::<F>(x), times::<F>(half(), xinv)));
    let b = minus::<F>(a, over::<F>(xinv2, lit(TWELVE)));
    let c = plus::<F>(b, over::<F>(t2, lit(C_120)));
    let d = minus::<F>(c, over::<F>(t3, lit(C_252)));
    let f = plus::<F>(d, over::<F>(t4, lit(C_240)));
    let t5 = times::<F>(t4, xinv2);
    let t6 = times::<F>(t5, xinv2);
    let t7 = times::<F>(t6, xinv2);
    let t8 = times::<F>(t7, xinv2);
    let g = minus::<F>(f, over::<F>(t5, lit(C_132)));
    let h = plus::<F>(g, times::<F>(t6, lit(C_691_32760)));
    let k = minus::<F>(h, over::<F>(t7, lit(TWELVE)));
    plus::<F>(k, times::<F>(t8, lit(C_3617_8160)))
}

/// The derivative of the log gamma function.
pub fn digamma<F: Arithmetic>(x0: Double) -> (r: Double)
    requires
        lawful::<F>(),
    ensures
        r == digamma_of::<F>(x0),
{
    let (acc, x) = climb::<F>(x0, false);
    let xinv: Double = over::<F>(one(), x);
    let xinv2: Double = times::<F>(xinv, xinv);
    let mut result: Double = plus::<F>(acc, minus::<F>(ln::<F>(x), times::<F>(half(), xinv)));
    let mut t: Double = xinv2;
    result = minus::<F>(result, over::<F>(t, lit(TWELVE)));
    t = times::<F>(t, xinv2);
    result = plus::<F>(result, over::<F>(t, lit(C_120)));
    t = times::<F>(t, xinv2);
    result = minus::<F>(result, over::<F>(t, lit(C_252)));
    t = times::<F>(t, xinv2);
    result = plus::<F>(result, over::<F>(t, lit(C_240)));
    t = times::<F>(t, xinv2);
    result = minus::<F>(result, over::<F>(t, lit(C_132)));
    t = times::<F>(t, xinv2);
    result = plus::<F>(result, times::<F>(t, lit(C_691_32760)));
    t = times::<F>(t, xinv2);
    result = minus::<F>(result, over::<F>(t, lit(TWELVE)));
    t = times::<F>(t, xinv2);
    plus::<F>(result, times::<F>(t, lit(C_3617_8160)))
}

/// The second derivative of the log gamma function: the recurrence up to 6, then
/// the asymptotic series.
pub open spec fn trigamma_of<F: Arithmetic>(x0: Double) -> Double {
    let (acc, x) = climb_of::<F>(x0, true);
    let xinv = over::<F>(one(), x);
    let xinv2 = times::<F>(xinv, xinv);
    let t1 = times::<F>(xinv2, xinv);
    let t2 = times::<F>(t1, xinv2);
    let t3 = times::<F>(t2, xinv2);
    let t4 = times::<F>(t3, xinv2);
    let a = plus::<F>(acc, plus::<F>(xinv, times::<F>(half(), xinv2)));
    let b = plus::<F>(a, over::<F>(t1, lit(SIX)));
    let c = minus::<F>(b, over::<F>(t2, lit(THIRTY)));
    let d = plus::<F>(c, over::<F>(t3, lit(FORTY_TWO)));
    minus::<F>(d, over::<F>(t4, lit(THIRTY)))
}

/// The second derivative of the log gamma function.
pub fn trigamma<F: Arithmetic>(x0: Double) -> (r: Double)
    requires
        lawful::<F>(),
    ensures
        r == trigamma_of::<F>(x0),
{
    let (acc, x) = climb::<F>(x0, true);
    let xinv: Double = over::<F>(one(), x);
    let xinv2: Double = times::<F>(xinv, xinv);
    let mut result: Double = plus::<F>(acc, plus::<F>(xinv, times::<F>(half(), xinv2)));
    let mut t: Double = times::<F>(xinv2, xinv);
    result = plus::<F>(result, over::<F>(t, lit(SIX)));
    t = times::<F>(t, xinv2);
    result = minus::<F>(result, over::<F>(t, lit(THIRTY)));
    t = times::<F>(t, xinv2);
    result = plus::<F>(result, over::<F>(t, lit(FORTY_TWO)));
    t = times::<F>(t, xinv2);
    minus::<F>(result, over::<F>(t, lit(THIRTY)))
}

/// What the terms of the Tweedie series share for a dispersion and a power.
#[derive(Clone, Copy, Debug, PartialEq, Eq, Structural)]
pub struct TweedieBase {
    /// Dispersion.
    pub phi: Double,
    /// `1 - p`.
    pub onep: Double,
    /// `(1 - p)^2`.
    pub onep2: Double,
    /// `2 - p`.
    pub twop: Double,
    /// `(2 - p) / (1 - p)`.
    pub alpha: Double,
    /// Factor of `j` in the log of term `j`.
    pub w_base: Double,
    /// Factor of `j` in the derivative of the log of term `j` along `ln(phi)`.
    pub wb1_base: Double,
    /// Factor of `j` in the derivative of the log of term `j` along `p`.
    pub wp_base: Double,
    /// Log of the size, relative to the largest term, at which a term is the last
    /// one.
    pub log_eps: Double,
}

/// What the terms of the series share.
pub open spec fn tweedie_base_of<F: Arithmetic>(phi: Double, p: Double) -> TweedieBase {
    let onep = minus::<F>(one(), p);
    let onep2 = times::<F>(onep, onep);
    let twop = minus::<F>(two(), p);
    let alpha = over::<F>(twop, onep);
    let rho = ln::<F>(phi);
    let log_pm1 = ln::<F>(minus::<F>(p, one()));
    TweedieBase {
        phi,
        onep,
        onep2,
        twop,
        alpha,
        w_base: minus::<F>(
            plus::<F>(times::<F>(alpha, log_pm1), over::<F>(rho, onep)),
            ln::<F>(twop),
        ),
        wb1_base: over::<F>(lit(MINUS_ONE), onep),
        wp_base: plus::<F>(
            minus::<F>(over::<F>(plus::<F>(log_pm1, rho), onep2), over::<F>(alpha, onep)),
            over::<F>(one(), twop),
        ),
        log_eps: ln::<F>(times::<F>(lit(EPSILON), lit(EPSILON))),
    }
}

/// What the terms of the series share.
pub fn tweedie_base<F: Arithmetic>(phi: Double, p: Double) -> (b: TweedieBase)
    requires
        lawful::<F>(),
    ensures
        b == tweedie_base_of::<F>(phi, p),
{
    let onep: Double = minus::<F>(one(), p);
    let onep2: Double = times::<F>(onep, onep);
    let twop: Double = minus::<F>(two(), p);
    let alpha: Double = over::<F>(twop, onep);
    let rho: Double = ln::<F>(phi);
    let log_pm1: Double = ln::<F>(minus::<F>(p, one()));
    TweedieBase {
        phi,
        onep,
        onep2,
        twop,
        alpha,
        w_base: minus::<F>(
            plus::<F>(times::<F>(alpha, log_pm1), over::<F>(rho, onep)),
            ln::<F>(twop),
        ),
        wb1_base: over::<F>(lit(MINUS_ONE), onep),
        wp_base: plus::<F>(
            minus::<F>(over::<F>(plus::<F>(log_pm1, rho), onep2), over::<F>(alpha, onep)),
            over::<F>(one(), twop),
        ),
        log_eps: ln::<F>(times::<F>(lit(EPSILON), lit(EPSILON))),
    }
}

/// The sums over the terms of a series, each relative to its largest term.
#[derive(Clone, Copy, Debug, PartialEq, Eq, Structural)]
pub struct SeriesSums {
    /// Of the terms.
    pub w: Double,
    /// Of the terms times the factor of their derivative along `ln(phi)`.
    pub w1: Double,
    /// Of the terms times `j^2`.
    pub s2: Double,
    /// Of the terms times their derivative along `p`.
    pub wp: Double,
}

/// Terms after the largest that a series may have, in number of the last.
pub const LAST_TERM: u64 = 10_000_000;

impl TweedieBase {
    /// `-j alpha`.
    pub open spec fn neg_j_alpha<F: Arithmetic>(self, j: u64) -> Double {
        times::<F>(natural::<F>(j).neg_spec(), self.alpha)
    }

    /// The part of the log of term `j` that does not depend on the observation.
    pub open spec fn wj0_of<F: Arithmetic>(self, j: u64) -> Double {
        minus::<F>(
            minus::<F>(
                times::<F>(natural::<F>(j), self.w_base),
                log_gamma_of::<F>(plus::<F>(natural::<F>(j), one())),
            ),
            log_gamma_of::<F>(self.neg_j_alpha::<F>(j)),
        )
    }

    /// The part of its derivative along `p` that does not depend on the
    /// observation.
    pub open spec fn wp1_of<F: Arithmetic>(self, j: u64) -> Double {
        plus::<F>(
            times::<F>(natural::<F>(j), self.wp_base),
            times::<F>(
                over::<F>(natural::<F>(j), self.onep2),
                digamma_of::<F>(self.neg_j_alpha::<F>(j)),
            ),
        )
    }

    /// The log of term `j` of an observation's series.
    pub open spec fn wj_of<F: Arithmetic>(self, y: Double, j: u64) -> Double {
        minus::<F>(
            self.wj0_of::<F>(j),
            times::<F>(natural::<F>(j), times::<F>(self.alpha, ln::<F>(y))),
        )
    }

    /// The number of the largest term: `y^(2-p) / (phi (2-p))` rounded down, at
    /// least 1.
    pub open spec fn largest_of<F: Arithmetic>(self, y: Double) -> u64 {
        let x = over::<F>(power::<F>(y, self.twop), times::<F>(self.phi, self.twop));
        let j = floor_int::<F>(x);
        if j < 1 {
            1
        } else {
            j as u64
        }
    }

    /// The log of the largest term.
    pub open spec fn top_of<F: Arithmetic>(self, y: Double) -> Double {
        self.wj_of::<F>(y, self.largest_of::<F>(y))
    }

    /// Term `j` is small enough to be the last one.
    pub open spec fn small<F: Arithmetic>(self, y: Double, j: u64) -> bool {
        self.wj_of::<F>(y, j).below(plus::<F>(self.top_of::<F>(y), self.log_eps))
    }

    /// The size of term `j`, relative to the largest.
    pub open spec fn size_of<F: Arithmetic>(self, y: Double, j: u64) -> Double {
        exp::<F>(minus::<F>(self.wj_of::<F>(y, j), self.top_of::<F>(y)))
    }

    /// The sums with term `j`.
    pub open spec fn with_term<F: Arithmetic>(self, y: Double, s: SeriesSums, j: u64) -> SeriesSums {
        let size = self.size_of::<F>(y, j);
        let jf = natural::<F>(j);
        SeriesSums {
            w: plus::<F>(s.w, size),
            w1: plus::<F>(s.w1, times::<F>(times::<F>(size, jf), self.wb1_base)),
            s2: plus::<F>(s.s2, times::<F>(times::<F>(size, jf), jf)),
            wp: plus::<F>(
                s.wp,
                times::<F>(
                    size,
                    minus::<F>(
                        self.wp1_of::<F>(j),
                        times::<F>(jf, over::<F>(ln::<F>(y), self.onep2)),
                    ),
                ),
            ),
        }
    }

    /// The sums with the terms from `j` up to the first small one.
    pub open spec fn swept_up<F: Arithmetic>(self, y: Double, s: SeriesSums, j: u64) -> SeriesSums
        decreases LAST_TERM - j,
    {
        let t = self.with_term::<F>(y, s, j);
        if self.small::<F>(y, j) || j >= LAST_TERM {
            t
        } else {
            self.swept_up::<F>(y, t, (j + 1) as u64)
        }
    }

    /// The sums with the terms from `j` down to the first small one, or to 1.
    pub open spec fn swept_down<F: Arithmetic>(self, y: Double, s: SeriesSums, j: u64) -> SeriesSums
        decreases j,
    {
        if j < 1 {
            s
        } else {
            let t = self.with_term::<F>(y, s, j);
            if self.small::<F>(y, j) {
                t
            } else {
                self.swept_down::<F>(y, t, (j - 1) as u64)
            }
        }
    }

    /// The sums of an observation's series: up from the largest term, then down
    /// from the one before it.
    pub open spec fn sums_of<F: Arithmetic>(self, y: Double) -> SeriesSums {
        let j = self.largest_of::<F>(y);
        let none = SeriesSums { w: zero(), w1: zero(), s2: zero(), wp: zero() };
        self.swept_down::<F>(y, self.swept_up::<F>(y, none, j), (j - 1) as u64)
    }

    /// The observation-independent parts of term `j`.
    fn parts<F: Arithmetic>(&self, j: u64) -> (r: (Double, Double))
        requires
            lawful::<F>(),
        ensures
            r.0 == self.wj0_of::<F>(j),
            r.1 == self.wp1_of::<F>(j),
    {
        let jf: Double = natural::<F>(j);
        let nja: Double = times::<F>(jf.neg(), self.alpha);
        let wj0: Double = minus::<F>(
            minus::<F>(times::<F>(jf, self.w_base), log_gamma::<F>(plus::<F>(jf, one()))),
            log_gamma::<F>(nja),
        );
        let wp1: Double = plus::<F>(
            times::<F>(jf, self.wp_base),
            times::<F>(over::<F>(jf, self.onep2), digamma::<F>(nja)),
        );
        (wj0, wp1)
    }

    fn largest<F: Arithmetic>(&self, y: Double) -> (j: u64)
        requires
            lawful::<F>(),
        ensures
            j == self.largest_of::<F>(y),
            j >= 1,
    {
        let x: Double = over::<F>(power::<F>(y, self.twop), times::<F>(self.phi, self.twop));
        let j: i64 = floor_int::<F>(x);
        if j < 1 {
            1
        } else {
            j as u64
        }
    }
}

/// Observation-independent parts of the first terms, computed once for all
/// observations.
struct TermCache {
    parts: Vec<(Double, Double)>,
}

impl TermCache {
    spec fn of<F: Arithmetic>(&self, b: TweedieBase) -> bool {
        forall|j: int|
            0 <= j < self.parts@.len() && j <= u64::MAX ==> (#[trigger] self.parts@[j]).0 == b.wj0_of::<F>(j as u64)
                && self.parts@[j].1 == b.wp1_of::<F>(j as u64)
    }

    /// Computes the parts of the first `n` terms.
    fn fill<F: Arithmetic>(b: &TweedieBase, n: u64) -> (c: TermCache)
        requires
            lawful::<F>(),
        ensures
            c.parts@ == Seq::new(n as nat, |j: int| (b.wj0_of::<F>(j as u64), b.wp1_of::<F>(j as u64))),
            c.of::<F>(*b),
    {
        let mut parts: Vec<(Double, Double)> = Vec::new();
        for j in 0..n
            invariant
                lawful::<F>(),
                parts@.len() == j,
                forall|k: int|
                    0 <= k < j ==> (#[trigger] parts@[k]).0 == b.wj0_of::<F>(k as u64) && parts@[k].1
                        == b.wp1_of::<F>(k as u64),
        {
            parts.push(b.parts::<F>(j));
        }
        assert(parts@ =~= Seq::new(
            n as nat,
            |j: int| (b.wj0_of::<F>(j as u64), b.wp1_of::<F>(j as u64)),
        ));
        TermCache { parts }
    }

    fn at<F: Arithmetic>(&self, b: &TweedieBase, j: u64) -> (r: (Double, Double))
        requires
            lawful::<F>(),
            self.of::<F>(*b),
        ensures
            r.0 == b.wj0_of::<F>(j),
            r.1 == b.wp1_of::<F>(j),
    {
        if j < self.parts.len() as u64 {
            assert(self.parts@[j as int].0 == b.wj0_of::<F>(j));
            self.parts[j as usize]
        } else {
            b.parts::<F>(j)
        }
    }
}

/// A series in progress.
struct Sweep {
    y: Double,
    alogy: Double,
    logy1p2: Double,
    top: Double,
    least: Double,
}

impl Sweep {
    spec fn of<F: Arithmetic>(&self, b: TweedieBase) -> bool {
        &&& self.alogy == times::<F>(b.alpha, ln::<F>(self.y))
        &&& self.logy1p2 == over::<F>(ln::<F>(self.y), b.onep2)
        &&& self.top == b.top_of::<F>(self.y)
        &&& self.least == plus::<F>(b.top_of::<F>(self.y), b.log_eps)
    }

    /// Adds term `j`, and says whether it is small enough to be the last one.
    fn add<F: Arithmetic>(&self, b: &TweedieBase, c: &TermCache, s: SeriesSums, j: u64) -> (r: (SeriesSums, bool))
        requires
            lawful::<F>(),
            c.of::<F>(*b),
            self.of::<F>(*b),
        ensures
            r.0 == b.with_term::<F>(self.y, s, j),
            r.1 == b.small::<F>(self.y, j),
    {
        let jf: Double = natural::<F>(j);
        let (wj0, wp1_const) = c.at::<F>(b, j);
        let wj: Double = minus::<F>(wj0, times::<F>(jf, self.alogy));
        let size: Double = exp::<F>(minus::<F>(wj, self.top));
        let wp1: Double = minus::<F>(wp1_const, times::<F>(jf, self.logy1p2));
        let t: SeriesSums = SeriesSums {
            w: plus::<F>(s.w, size),
            w1: plus::<F>(s.w1, times::<F>(times::<F>(size, jf), b.wb1_base)),
            s2: plus::<F>(s.s2, times::<F>(times::<F>(size, jf), jf)),
            wp: plus::<F>(s.wp, times::<F>(size, wp1)),
        };
        (t, wj.lt(self.least))
    }

    fn sum<F: Arithmetic>(&self, b: &TweedieBase, c: &TermCache, largest: u64) -> (r: SeriesSums)
        requires
            lawful::<F>(),
            c.of::<F>(*b),
            self.of::<F>(*b),
            largest == b.largest_of::<F>(self.y),
            largest >= 1,
        ensures
            r == b.sums_of::<F>(self.y),
    {
        let none: SeriesSums = SeriesSums { w: zero(), w1: zero(), s2: zero(), wp: zero() };
        let mut s: SeriesSums = none;
        let mut j: u64 = largest;
        let mut going: bool = true;
        while going
            invariant
                lawful::<F>(),
                c.of::<F>(*b),
                self.of::<F>(*b),
                going ==> b.swept_up::<F>(self.y, none, largest) == b.swept_up::<F>(self.y, s, j),
                !going ==> b.swept_up::<F>(self.y, none, largest) == s,
            decreases (if going { 1 + LAST_TERM + (if j < LAST_TERM { LAST_TERM - j } else { 0 }) } else { 0 }),
        {
            let (t, small) = self.add::<F>(b, c, s, j);
            s = t;
            if small || j >= LAST_TERM {
                going = false;
            } else {
                j = j + 1;
            }
        }
        let ghost up = s;
        let mut k: u64 = largest - 1;
        let mut down: bool = true;
        while down && k >= 1
            invariant
                lawful::<F>(),
                c.of::<F>(*b),
                self.of::<F>(*b),
                down ==> b.swept_down::<F>(self.y, up, (largest - 1) as u64) == b.swept_down::<F>(
                    self.y,
                    s,
                    k,
                ),
                !down ==> b.swept_down::<F>(self.y, up, (largest - 1) as u64) == s,
            decreases (if down { k + 1 } else { 0 }),
        {
            let (t, small) = self.add::<F>(b, c, s, k);
            s = t;
            if small {
                down = false;
            } else {
                k = k - 1;
            }
        }
        s
    }
}

/// The log of the series of one observation, and its derivatives.
#[derive(Clone, Copy, Debug, PartialEq, Eq, Structural)]
pub struct TweedieTerms {
    /// The log of the series.
    pub log_w: Double,
    /// Its derivative along `ln(phi)`.
    pub dlog_w_drho: Double,
    /// Its second derivative along `ln(phi)`.
    pub d2log_w_drho2: Double,
    /// Its derivative along `p`.
    pub dlog_w_dp: Double,
}

/// The log of the series of one observation, and its derivatives: all zero where
/// the observation is not above zero.
pub open spec fn tweedie_terms_of<F: Arithmetic>(b: TweedieBase, y: Double) -> TweedieTerms {
    if y.at_most(zero()) {
        TweedieTerms {
            log_w: zero(),
            dlog_w_drho: zero(),
            d2log_w_drho2: zero(),
            dlog_w_dp: zero(),
        }
    } else {
        let s = b.sums_of::<F>(y);
        let e_j = over::<F>(times::<F>(b.onep.neg_spec(), s.w1), s.w);
        TweedieTerms {
            log_w: plus::<F>(b.top_of::<F>(y), ln::<F>(s.w)),
            dlog_w_drho: over::<F>(s.w1.neg_spec(), s.w),
            d2log_w_drho2: times::<F>(
                over::<F>(one(), b.onep2),
                minus::<F>(over::<F>(s.s2, s.w), times::<F>(e_j, e_j)),
            ),
            dlog_w_dp: over::<F>(s.wp, s.w),
        }
    }
}

/// Terms that the cache holds beyond the largest one, at least.
pub const CACHE_MARGIN: u64 = 64;

fn all_terms<F: Arithmetic>(y: &Vec<Double>, phi: Double, p: Double) -> (r: Vec<TweedieTerms>)
    requires
        lawful::<F>(),
    ensures
        r@ == Seq::new(y@.len(), |i: int| tweedie_terms_of::<F>(tweedie_base_of::<F>(phi, p), y@[i])),
{
    let b: TweedieBase = tweedie_base::<F>(phi, p);
    let mut most: u64 = 1;
    for i in 0..y.len()
        invariant
            lawful::<F>(),
    {
        if zero().lt(y[i]) {
            let j: u64 = b.largest::<F>(y[i]);
            if j > most {
                most = j;
            }
        }
    }
    let cached: u64 = if most < LAST_TERM {
        most + CACHE_MARGIN
    } else {
        LAST_TERM
    };
    let cache: TermCache = TermCache::fill::<F>(&b, cached);
    let mut out: Vec<TweedieTerms> = Vec::new();
    for i in 0..y.len()
        invariant
            lawful::<F>(),
            b == tweedie_base_of::<F>(phi, p),
            cache.of::<F>(b),
            out@.len() == i,
            forall|k: int| 0 <= k < i ==> #[trigger] out@[k] == tweedie_terms_of::<F>(b, y@[k]),
    {
        let yi: Double = y[i];
        if yi.le(zero()) {
            out.push(
                TweedieTerms {
                    log_w: zero(),
                    dlog_w_drho: zero(),
                    d2log_w_drho2: zero(),
                    dlog_w_dp: zero(),
                },
            );
        } else {
            let logy: Double = ln::<F>(yi);
            let alogy: Double = times::<F>(b.alpha, logy);
            let j: u64 = b.largest::<F>(yi);
            let (wj0, _) = cache.at::<F>(&b, j);
            let top: Double = minus::<F>(wj0, times::<F>(natural::<F>(j), alogy));
            let sweep: Sweep = Sweep {
                y: yi,
                alogy,
                logy1p2: over::<F>(logy, b.onep2),
                top,
                least: plus::<F>(top, b.log_eps),
            };
            let s: SeriesSums = sweep.sum::<F>(&b, &cache, j);
            let e_j: Double = over::<F>(times::<F>(b.onep.neg(), s.w1), s.w);
            let e_j_sq: Double = over::<F>(s.s2, s.w);
            out.push(
                TweedieTerms {
                    log_w: plus::<F>(top, ln::<F>(s.w)),
                    dlog_w_drho: over::<F>(s.w1.neg(), s.w),
                    d2log_w_drho2: times::<F>(
                        over::<F>(one(), b.onep2),
                        minus::<F>(e_j_sq, times::<F>(e_j, e_j)),
                    ),
                    dlog_w_dp: over::<F>(s.wp, s.w),
                },
            );
        }
    }
    assert(out@ =~= Seq::new(
        y@.len(),
        |i: int| tweedie_terms_of::<F>(tweedie_base_of::<F>(phi, p), y@[i]),
    ));
    out
}

/// The log of the series of each observation, its first and second derivatives
/// along `ln(phi)`, and its derivative along `p`. The parts of the terms that do
/// not depend on the observation are computed once.
pub fn tweedie_series<F: Arithmetic>(y: &Vec<Double>, phi: Double, p: Double) -> (r: (
    Vec<Double>,
    Vec<Double>,
    Vec<Double>,
    Vec<Double>,
))
    requires
        lawful::<F>(),
    ensures
        r.0@ == Seq::new(
            y@.len(),
            |i: int| tweedie_terms_of::<F>(tweedie_base_of::<F>(phi, p), y@[i]).log_w,
        ),
        r.1@ == Seq::new(
            y@.len(),
            |i: int| tweedie_terms_of::<F>(tweedie_base_of::<F>(phi, p), y@[i]).dlog_w_drho,
        ),
        r.2@ == Seq::new(
            y@.len(),
            |i: int| tweedie_terms_of::<F>(tweedie_base_of::<F>(phi, p), y@[i]).d2log_w_drho2,
        ),
        r.3@ == Seq::new(
            y@.len(),
            |i: int| tweedie_terms_of::<F>(tweedie_base_of::<F>(phi, p), y@[i]).dlog_w_dp,
        ),
{
    let terms: Vec<TweedieTerms> = all_terms::<F>(y, phi, p);
    let mut log_w: Vec<Double> = Vec::new();
    let mut drho: Vec<Double> = Vec::new();
    let mut drho2: Vec<Double> = Vec::new();
    let mut dp: Vec<Double> = Vec::new();
    for i in 0..terms.len()
        invariant
            log_w@ == Seq::new(i as nat, |k: int| terms@[k].log_w),
            drho@ == Seq::new(i as nat, |k: int| terms@[k].dlog_w_drho),
            drho2@ == Seq::new(i as nat, |k: int| terms@[k].d2log_w_drho2),
            dp@ == Seq::new(i as nat, |k: int| terms@[k].dlog_w_dp),
    {
        let t: TweedieTerms = terms[i];
        log_w.push(t.log_w);
        drho.push(t.dlog_w_drho);
        drho2.push(t.d2log_w_drho2);
        dp.push(t.dlog_w_dp);
        assert(log_w@ =~= Seq::new((i + 1) as nat, |k: int| terms@[k].log_w));
        assert(drho@ =~= Seq::new((i + 1) as nat, |k: int| terms@[k].dlog_w_drho));
        assert(drho2@ =~= Seq::new((i + 1) as nat, |k: int| terms@[k].d2log_w_drho2));
        assert(dp@ =~= Seq::new((i + 1) as nat, |k: int| terms@[k].dlog_w_dp));
    }
    assert(log_w@ =~= Seq::new(
        y@.len(),
        |i: int| tweedie_terms_of::<F>(tweedie_base_of::<F>(phi, p), y@[i]).log_w,
    ));
    assert(drho@ =~= Seq::new(
        y@.len(),
        |i: int| tweedie_terms_of::<F>(tweedie_base_of::<F>(phi, p), y@[i]).dlog_w_drho,
    ));
    assert(drho2@ =~= Seq::new(
        y@.len(),
        |i: int| tweedie_terms_of::<F>(tweedie_base_of::<F>(phi, p), y@[i]).d2log_w_drho2,
    ));
    assert(dp@ =~= Seq::new(
        y@.len(),
        |i: int| tweedie_terms_of::<F>(tweedie_base_of::<F>(phi, p), y@[i]).dlog_w_dp,
    ));
    (log_w, drho, drho2, dp)
}

impl TweedieBase {
    /// The sum of the terms from `past` after the largest up to the first small one,
    /// or to the first more than a thousand after the largest.
    pub open spec fn summed_up<F: Arithmetic>(self, y: Double, w: Double, past: nat) -> Double
        decreases 1001 - past,
    {
        let j = (self.largest_of::<F>(y) + past) as u64;
        let t = plus::<F>(w, self.size_of::<F>(y, j));
        if self.small::<F>(y, j) || past > 1000 {
            t
        } else {
            self.summed_up::<F>(y, t, past + 1)
        }
    }

    /// The sum of the terms from `j` down to the first small one, or to 1.
    pub open spec fn summed_down<F: Arithmetic>(self, y: Double, w: Double, j: u64) -> Double
        decreases j,
    {
        if j < 1 {
            w
        } else {
            let t = plus::<F>(w, self.size_of::<F>(y, j));
            if self.small::<F>(y, j) {
                t
            } else {
                self.summed_down::<F>(y, t, (j - 1) as u64)
            }
        }
    }
}

/// The log of the series of one observation: zero where the observation is not
/// above zero or the power is not between 1 and 2.
pub open spec fn tweedie_log_w_of<F: Arithmetic>(y: Double, phi: Double, p: Double) -> Double {
    let b = tweedie_base_of::<F>(phi, p);
    if y.at_most(zero()) || p.at_most(one()) || two().at_most(p) {
        zero()
    } else {
        plus::<F>(
            b.top_of::<F>(y),
            ln::<F>(
                b.summed_down::<F>(
                    y,
                    b.summed_up::<F>(y, zero(), 0),
                    (b.largest_of::<F>(y) - 1) as u64,
                ),
            ),
        )
    }
}

/// The log of the series of one observation.
pub fn tweedie_log_w<F: Arithmetic>(y: Double, phi: Double, p: Double) -> (r: Double)
    requires
        lawful::<F>(),
    ensures
        r == tweedie_log_w_of::<F>(y, phi, p),
{
    if y.le(zero()) {
        return zero();
    }
    if p.le(one()) || two().le(p) {
        return zero();
    }
    let b: TweedieBase = tweedie_base::<F>(phi, p);
    let alogy: Double = times::<F>(b.alpha, ln::<F>(y));
    let j: u64 = b.largest::<F>(y);
    let top: Double = b.log_term::<F>(y, alogy, j);
    let least: Double = plus::<F>(top, b.log_eps);
    let mut w: Double = zero();
    let mut past: u64 = 0;
    let mut going: bool = true;
    while going
        invariant
            lawful::<F>(),
            j == b.largest_of::<F>(y),
            j <= i64::MAX,
            past <= 1001,
            alogy == times::<F>(b.alpha, ln::<F>(y)),
            top == b.top_of::<F>(y),
            least == plus::<F>(b.top_of::<F>(y), b.log_eps),
            going ==> b.summed_up::<F>(y, zero(), 0) == b.summed_up::<F>(y, w, past as nat),
            !going ==> b.summed_up::<F>(y, zero(), 0) == w,
        decreases (if going { 1002 - past } else { 0 }),
    {
        let wj: Double = b.log_term::<F>(y, alogy, j + past);
        w = plus::<F>(w, exp::<F>(minus::<F>(wj, top)));
        if wj.lt(least) || past > 1000 {
            going = false;
        } else {
            past = past + 1;
        }
    }
    let ghost up = w;
    let mut k: u64 = j - 1;
    let mut down: bool = true;
    while down && k >= 1
        invariant
            lawful::<F>(),
            j == b.largest_of::<F>(y),
            alogy == times::<F>(b.alpha, ln::<F>(y)),
            top == b.top_of::<F>(y),
            least == plus::<F>(b.top_of::<F>(y), b.log_eps),
            down ==> b.summed_down::<F>(y, up, (j - 1) as u64) == b.summed_down::<F>(y, w, k),
            !down ==> b.summed_down::<F>(y, up, (j - 1) as u64) == w,
        decreases (if down { k + 1 } else { 0 }),
    {
        let wj: Double = b.log_term::<F>(y, alogy, k);
        w = plus::<F>(w, exp::<F>(minus::<F>(wj, top)));
        if wj.lt(least) {
            down = false;
        } else {
            k = k - 1;
        }
    }
    plus::<F>(top, ln::<F>(w))
}

impl TweedieBase {
    fn log_term<F: Arithmetic>(&self, y: Double, alogy: Double, j: u64) -> (r: Double)
        requires
            lawful::<F>(),
            alogy == times::<F>(self.alpha, ln::<F>(y)),
        ensures
            r == self.wj_of::<F>(y, j),
    {
        let jf: Double = natural::<F>(j);
        minus::<F>(
            minus::<F>(
                minus::<F>(times::<F>(jf, self.w_base), log_gamma::<F>(plus::<F>(jf, one()))),
                log_gamma::<F>(times::<F>(jf.neg(), self.alpha)),
            ),
            times::<F>(jf, alogy),
        )
    }
}

impl TweedieBase {
    /// Both sums reach the term `k` after the largest and end there if not before:
    /// it is small, or it is at the limit of either.
    pub open spec fn both_stop<F: Arithmetic>(self, y: Double, k: nat) -> bool {
        let j = self.largest_of::<F>(y) + k;
        &&& k <= 1001
        &&& k == 0 || j <= LAST_TERM
        &&& self.small::<F>(y, j as u64) || (k == 1001 && j == LAST_TERM)
    }
}

proof fn lemma_up_sums_agree<F: Arithmetic>(b: TweedieBase, y: Double, s: SeriesSums, past: nat, k: nat)
    requires
        past <= k,
        b.both_stop::<F>(y, k),
    ensures
        b.swept_up::<F>(y, s, (b.largest_of::<F>(y) + past) as u64).w == b.summed_up::<F>(y, s.w, past),
    decreases k - past,
{
    let j = (b.largest_of::<F>(y) + past) as u64;
    if past < k && !b.small::<F>(y, j) {
        lemma_up_sums_agree::<F>(b, y, b.with_term::<F>(y, s, j), past + 1, k);
    }
}

proof fn lemma_down_sums_agree<F: Arithmetic>(b: TweedieBase, y: Double, s: SeriesSums, j: u64)
    ensures
        b.swept_down::<F>(y, s, j).w == b.summed_down::<F>(y, s.w, j),
    decreases j,
{
    if j >= 1 && !b.small::<F>(y, j) {
        lemma_down_sums_agree::<F>(b, y, b.with_term::<F>(y, s, j), (j - 1) as u64);
    }
}

/// The two ways to the log of a series come to the same number, wherever both end
/// with the same term.
pub proof fn law_the_two_sums_agree<F: Arithmetic>(y: Double, phi: Double, p: Double, k: nat)
    requires
        one().below(p),
        p.below(two()),
        tweedie_base_of::<F>(phi, p).both_stop::<F>(y, k),
    ensures
        tweedie_terms_of::<F>(tweedie_base_of::<F>(phi, p), y).log_w == tweedie_log_w_of::<F>(
            y,
            phi,
            p,
        ),
{
    let b = tweedie_base_of::<F>(phi, p);
    let none = SeriesSums { w: zero(), w1: zero(), s2: zero(), wp: zero() };
    let j = b.largest_of::<F>(y);
    lemma_up_sums_agree::<F>(b, y, none, 0, k);
    lemma_down_sums_agree::<F>(b, y, b.swept_up::<F>(y, none, j), (j - 1) as u64);
}

/// The series is not asked for where the observation is not above zero.
pub proof fn law_no_series_at_zero<F: Arithmetic>(y: Double, phi: Double, p: Double)
    requires
        y.at_most(zero()),
    ensures
        tweedie_log_w_of::<F>(y, phi, p) == zero(),
        tweedie_terms_of::<F>(tweedie_base_of::<F>(phi, p), y).log_w == zero(),
        tweedie_terms_of::<F>(tweedie_base_of::<F>(phi, p), y).dlog_w_dp == zero(),
{
}

} // verus!
