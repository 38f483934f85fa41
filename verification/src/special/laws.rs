//! Laws of the special functions, in exact arithmetic: recurrences, reflection, and
//! the terms and sums of the Tweedie series.

use vstd::prelude::*;

use crate::arith::{exp, floor_int, ln, minus, natural, over, plus, power, sin, times, Arithmetic};
use crate::double::{half, lit, one, two, zero, Double, PI, THIRTY};
use crate::exact::Residues;
use crate::special::{
    climb_of, climbed, digamma_of, log_gamma_of, trigamma_of, tweedie_base_of, tweedie_terms_of,
    SeriesSums, TweedieBase, C_120, C_132, C_240, C_252, C_3617_8160, C_691_32760, FORTY_TWO,
    LAST_TERM, MINUS_ONE, MOST_STEPS, SIX, TWELVE,
};

verus! {

/// What stands behind a series: `1 - p`, `2 - p`, and the logs of `p - 1`, `2 - p`,
/// `phi` and `y`.
pub struct TweedieInts {
    /// `1 - p`.
    pub o: int,
    /// `2 - p`.
    pub w: int,
    /// `ln(p - 1)`.
    pub lp: int,
    /// `ln(2 - p)`.
    pub lt: int,
    /// `ln(phi)`.
    pub rho: int,
    /// `ln(y)`.
    pub ly: int,
}

/// The numbers behind the series of an observation.
pub open spec fn tweedie_ints<F: Arithmetic>(r: Residues, y: Double, phi: Double, p: Double) -> TweedieInts {
    TweedieInts {
        o: 1 - r.at(p),
        w: 2 - r.at(p),
        lp: r.at(ln::<F>(minus::<F>(p, one()))),
        lt: r.at(ln::<F>(minus::<F>(two(), p))),
        rho: r.at(ln::<F>(phi)),
        ly: r.at(ln::<F>(y)),
    }
}

/// `t` stands for `-j a`, where `a = (2 - p) / (1 - p)`.
pub open spec fn minus_j_alpha(r: Residues, x: TweedieInts, j: u64, t: Double) -> bool {
    r.same(r.at(t) * x.o, -(j * x.w))
}

/// What the series share, as numbers.
proof fn lemma_base<F: Arithmetic>(r: Residues, y: Double, phi: Double, p: Double)
    requires
        r.exact::<F>(),
        !r.same(1 - r.at(p), 0),
    ensures
        ({
            let b = tweedie_base_of::<F>(phi, p);
            let x = tweedie_ints::<F>(r, y, phi, p);
            let ro = r.at(over::<F>(ln::<F>(phi), b.onep));
            &&& r.same(r.at(b.onep), x.o)
            &&& r.same(r.at(b.twop), x.w)
            &&& r.same(r.at(b.alpha) * x.o, x.w)
            &&& r.same(ro * x.o, x.rho)
            &&& r.same(r.at(b.w_base), r.at(b.alpha) * x.lp + ro - x.lt)
            &&& r.same(r.at(b.onep2), x.o * x.o)
            &&& r.same(r.at(b.wb1_base) * x.o, -1)
        }),
{
    let b = tweedie_base_of::<F>(phi, p);
    let x = tweedie_ints::<F>(r, y, phi, p);
    r.constants::<F>();
    r.itself(r.at(p));
    r.itself(x.rho);
    r.itself(x.lp);
    r.itself(x.lt);
    r.on_minus::<F>(one(), p, 1, r.at(p));
    r.on_minus::<F>(two(), p, 2, r.at(p));
    r.on_over::<F>(b.twop, b.onep, x.w, x.o);
    r.itself(r.at(b.alpha));
    let rod = over::<F>(ln::<F>(phi), b.onep);
    r.on_over::<F>(ln::<F>(phi), b.onep, x.rho, x.o);
    r.itself(r.at(rod));
    let lpd = ln::<F>(minus::<F>(p, one()));
    r.on_times::<F>(b.alpha, lpd, r.at(b.alpha), x.lp);
    r.on_plus::<F>(times::<F>(b.alpha, lpd), rod, r.at(b.alpha) * x.lp, r.at(rod));
    r.on_minus::<F>(
        plus::<F>(times::<F>(b.alpha, lpd), rod),
        ln::<F>(b.twop),
        r.at(b.alpha) * x.lp + r.at(rod),
        x.lt,
    );
    r.on_times::<F>(b.onep, b.onep, x.o, x.o);
    assert(lit(MINUS_ONE) == one().neg_spec());
    r.on_neg::<F>(one(), 1);
    r.on_over::<F>(lit(MINUS_ONE), b.onep, -1, x.o);
}

/// Term `j` of the series is
/// `W_j = y^(-j a) (p - 1)^(j a) / (phi^(j (1 - a)) (2 - p)^j j! Gamma(-j a))` with
/// `a = (2 - p) / (1 - p)`. Stated of its log, times `1 - p`:
/// `(1 - p) (ln W_j + ln j! + ln Gamma(-j a))` is
/// `j ((2 - p) (ln(p - 1) - ln y) + ln phi - (1 - p) ln(2 - p))`.
pub proof fn law_tweedie_term<F: Arithmetic>(r: Residues, y: Double, phi: Double, p: Double, j: u64)
    requires
        r.exact::<F>(),
        !r.same(1 - r.at(p), 0),
    ensures
        ({
            let b = tweedie_base_of::<F>(phi, p);
            let x = tweedie_ints::<F>(r, y, phi, p);
            exists|t: Double, f: Double| #[trigger]
                term_at::<F>(r, x, r.at(b.wj_of::<F>(y, j)), j, t, f)
        }),
{
    let b = tweedie_base_of::<F>(phi, p);
    let x = tweedie_ints::<F>(r, y, phi, p);
    lemma_base::<F>(r, y, phi, p);
    r.constants::<F>();
    r.numbered::<F>(j);
    let n = natural::<F>(j);
    let ro = r.at(over::<F>(ln::<F>(phi), b.onep));
    let al = r.at(b.alpha);
    let wb = al * x.lp + ro - x.lt;
    let f = plus::<F>(n, one());
    r.on_plus::<F>(n, one(), j as int, 1);
    r.on_neg::<F>(n, j as int);
    r.itself(al);
    r.itself(x.ly);
    let t = b.neg_j_alpha::<F>(j);
    r.on_times::<F>(n.neg_spec(), b.alpha, -(j as int), al);
    r.scaled(r.at(t), -(j as int) * al, x.o);
    r.scaled(al * x.o, x.w, -(j as int));
    let (o, w, k) = (x.o, x.w, j as int);
    assert(-k * al * o == -k * (al * o)) by (nonlinear_arith);
    assert(-k * w == -(k * w)) by (nonlinear_arith);
    r.chained(r.at(t) * o, -k * al * o, -(k * w));
    // The log of the term.
    let (gf, gt) = (log_gamma_of::<F>(f), log_gamma_of::<F>(t));
    r.itself(r.at(gf));
    r.itself(r.at(gt));
    let m0 = times::<F>(n, b.w_base);
    r.on_times::<F>(n, b.w_base, k, wb);
    let m1 = minus::<F>(m0, gf);
    r.on_minus::<F>(m0, gf, k * wb, r.at(gf));
    let m2 = minus::<F>(m1, gt);
    r.on_minus::<F>(m1, gt, k * wb - r.at(gf), r.at(gt));
    let ay = times::<F>(b.alpha, ln::<F>(y));
    r.on_times::<F>(b.alpha, ln::<F>(y), al, x.ly);
    r.on_times::<F>(n, ay, k, al * x.ly);
    let e = b.wj_of::<F>(y, j);
    r.on_minus::<F>(
        m2,
        times::<F>(n, ay),
        k * wb - r.at(gf) - r.at(gt),
        k * (al * x.ly),
    );
    let v = r.at(e);
    let g = r.at(gf) + r.at(gt);
    r.itself(g);
    r.summed(v, k * wb - r.at(gf) - r.at(gt) - k * (al * x.ly), g, g);
    r.scaled(v + g, k * wb - k * (al * x.ly), o);
    let (lp, lt, ly) = (x.lp, x.lt, x.ly);
    let inner = (al * o) * lp + ro * o - o * lt - (al * o) * ly;
    assert(k * wb - k * (al * ly) == k * (wb - al * ly)) by (nonlinear_arith);
    assert(o * (k * (wb - al * ly)) == k * (o * (wb - al * ly))) by (nonlinear_arith);
    let alp = al * lp;
    let aly = al * ly;
    assert(o * (alp + ro - lt - aly) == alp * o + ro * o - o * lt - aly * o) by (nonlinear_arith);
    assert(alp * o == (al * o) * lp) by (nonlinear_arith)
        requires
            alp == al * lp,
    ;
    assert(aly * o == (al * o) * ly) by (nonlinear_arith)
        requires
            aly == al * ly,
    ;
    assert(o * (wb - al * ly) == inner);
    r.scaled(al * o, w, lp);
    r.scaled(al * o, w, ly);
    r.scaled((al * o) * ly, w * ly, 1);
    r.itself(-(o * lt));
    r.summed((al * o) * lp, w * lp, ro * o, x.rho);
    r.summed((al * o) * lp + ro * o, w * lp + x.rho, -(o * lt), -(o * lt));
    r.summed(
        (al * o) * lp + ro * o - o * lt,
        w * lp + x.rho - o * lt,
        -((al * o) * ly),
        -(w * ly),
    );
    let rest = w * lp + x.rho - o * lt - w * ly;
    r.scaled(inner, rest, k);
    assert(o * (v + g) == (v + g) * o) by (nonlinear_arith);
    r.chained(o * (v + g), k * inner, k * rest);
    assert(w * (lp - ly) == w * lp - w * ly) by (nonlinear_arith);
    assert(term_at::<F>(r, x, v, j, t, f));
}

/// `v` is the log of term `j`: `f` stands for `j + 1`, so that its log gamma is
/// `ln j!`, and `t` for `-j a`.
pub open spec fn term_at<F: Arithmetic>(
    r: Residues,
    x: TweedieInts,
    v: int,
    j: u64,
    t: Double,
    f: Double,
) -> bool {
    &&& minus_j_alpha(r, x, j, t)
    &&& r.same(r.at(f), j + 1)
    &&& r.same(
        x.o * (v + (r.at(log_gamma_of::<F>(f)) + r.at(log_gamma_of::<F>(t)))),
        j * (x.w * (x.lp - x.ly) + x.rho - x.o * x.lt),
    )
}

/// `v` is the derivative of the log of term `j` along `p`:
/// `j ((ln(p - 1) + ln phi - ln y + psi(-j a)) / (1 - p)^2 - (2 - p) / (1 - p)^2 +
/// 1 / (2 - p))`, stated times `(1 - p)^2 (2 - p)`.
pub open spec fn term_slope_at<F: Arithmetic>(r: Residues, x: TweedieInts, v: int, j: u64, t: Double) -> bool {
    &&& minus_j_alpha(r, x, j, t)
    &&& r.same(
        v * (x.o * x.o * x.w),
        j * (x.w * (x.lp + x.rho - x.ly + r.at(digamma_of::<F>(t))) - x.w * x.w + x.o * x.o),
    )
}

/// The largest term: the whole part of `y^(2 - p) / (phi (2 - p))`, at least 1.
pub proof fn law_tweedie_largest_term<F: Arithmetic>(r: Residues, y: Double, phi: Double, p: Double)
    requires
        r.exact::<F>(),
        !r.same(r.at(phi) * (2 - r.at(p)), 0),
    ensures
        exists|x: Double| #[trigger]
            r.same(
                r.at(x) * (r.at(phi) * (2 - r.at(p))),
                r.at(power::<F>(y, minus::<F>(two(), p))),
            ) && tweedie_base_of::<F>(phi, p).largest_of::<F>(y) as int == if floor_int::<F>(x) < 1 {
                1
            } else {
                floor_int::<F>(x) as int
            },
{
    let b = tweedie_base_of::<F>(phi, p);
    r.constants::<F>();
    r.itself(r.at(p));
    r.itself(r.at(phi));
    r.on_minus::<F>(two(), p, 2, r.at(p));
    r.on_times::<F>(phi, b.twop, r.at(phi), 2 - r.at(p));
    let top = power::<F>(y, b.twop);
    r.itself(r.at(top));
    r.on_over::<F>(top, times::<F>(phi, b.twop), r.at(top), r.at(phi) * (2 - r.at(p)));
    let x = over::<F>(top, times::<F>(phi, b.twop));
    assert(r.same(r.at(x) * (r.at(phi) * (2 - r.at(p))), r.at(top)));
}

/// The factor of term `j` in the derivative along `p`.
pub open spec fn term_slope<F: Arithmetic>(b: TweedieBase, y: Double, j: u64) -> Double {
    minus::<F>(
        b.wp1_of::<F>(j),
        times::<F>(natural::<F>(j), over::<F>(ln::<F>(y), b.onep2)),
    )
}

/// The log of term `j` and its derivative along `p` belong together.
pub proof fn law_tweedie_term_slope<F: Arithmetic>(r: Residues, y: Double, phi: Double, p: Double, j: u64)
    requires
        r.exact::<F>(),
        !r.same(1 - r.at(p), 0),
        !r.same(2 - r.at(p), 0),
    ensures
        ({
            let b = tweedie_base_of::<F>(phi, p);
            let x = tweedie_ints::<F>(r, y, phi, p);
            term_slope_at::<F>(r, x, r.at(term_slope::<F>(b, y, j)), j, b.neg_j_alpha::<F>(j))
        }),
{
    let b = tweedie_base_of::<F>(phi, p);
    let x = tweedie_ints::<F>(r, y, phi, p);
    lemma_base::<F>(r, y, phi, p);
    r.constants::<F>();
    r.numbered::<F>(j);
    let n = natural::<F>(j);
    let (o, w, k, al) = (x.o, x.w, j as int, r.at(b.alpha));
    let oo = o * o;
    let t = b.neg_j_alpha::<F>(j);
    r.itself(al);
    r.on_neg::<F>(n, k);
    r.on_times::<F>(n.neg_spec(), b.alpha, -k, al);
    r.scaled(r.at(t), -k * al, o);
    r.scaled(al * o, w, -k);
    assert(-k * al * o == -k * (al * o)) by (nonlinear_arith);
    assert(-k * w == -(k * w)) by (nonlinear_arith);
    r.chained(r.at(t) * o, -k * al * o, -(k * w));
    let inv = r.inverse::<F>(b.onep, o);
    r.product_not_zero(o, o, inv);
    // The five parts.
    let lpd = ln::<F>(minus::<F>(p, one()));
    let (rhod, lyd) = (ln::<F>(phi), ln::<F>(y));
    r.itself(x.lp);
    r.itself(x.rho);
    r.itself(x.ly);
    let sd = plus::<F>(lpd, rhod);
    r.on_plus::<F>(lpd, rhod, x.lp, x.rho);
    let (ad, bd, cd) = (over::<F>(sd, b.onep2), over::<F>(b.alpha, b.onep), over::<F>(one(), b.twop));
    r.on_over::<F>(sd, b.onep2, x.lp + x.rho, oo);
    r.on_over::<F>(b.alpha, b.onep, al, o);
    r.on_over::<F>(one(), b.twop, 1, w);
    let (nd, yd) = (over::<F>(n, b.onep2), over::<F>(lyd, b.onep2));
    r.on_over::<F>(n, b.onep2, k, oo);
    r.on_over::<F>(lyd, b.onep2, x.ly, oo);
    let (a, bb, c, nn, yy) = (r.at(ad), r.at(bd), r.at(cd), r.at(nd), r.at(yd));
    let psid = digamma_of::<F>(t);
    let psi = r.at(psid);
    r.itself(a);
    r.itself(bb);
    r.itself(c);
    r.itself(nn);
    r.itself(yy);
    r.itself(psi);
    // Put together.
    r.on_minus::<F>(ad, bd, a, bb);
    r.on_plus::<F>(minus::<F>(ad, bd), cd, a - bb, c);
    r.on_times::<F>(n, b.wp_base, k, a - bb + c);
    r.on_times::<F>(nd, psid, nn, psi);
    r.on_plus::<F>(
        times::<F>(n, b.wp_base),
        times::<F>(nd, psid),
        k * (a - bb + c),
        nn * psi,
    );
    r.on_times::<F>(n, yd, k, yy);
    let e = term_slope::<F>(b, y, j);
    r.on_minus::<F>(
        b.wp1_of::<F>(j),
        times::<F>(n, yd),
        k * (a - bb + c) + nn * psi,
        k * yy,
    );
    let v = r.at(e);
    let m = oo * w;
    let np = nn * psi;
    r.scaled(v, k * (a - bb + c) + np - k * yy, m);
    assert(k * (a - bb + c) == k * a - k * bb + k * c) by (nonlinear_arith);
    let (ka, kb, kc, ky) = (k * a, k * bb, k * c, k * yy);
    assert((ka - kb + kc + np - ky) * m == ka * m - kb * m + kc * m + np * m - ky * m)
        by (nonlinear_arith);
    // Each part times the common factor.
    let u1 = k * (w * (a * oo));
    assert(ka * m == u1) by (nonlinear_arith)
        requires
            ka == k * a,
            m == oo * w,
            u1 == k * (w * (a * oo)),
    ;
    r.scaled(a * oo, x.lp + x.rho, w);
    r.scaled(w * (a * oo), w * (x.lp + x.rho), k);
    let u2 = k * (w * ((bb * o) * o));
    assert(kb * m == u2) by (nonlinear_arith)
        requires
            kb == k * bb,
            m == oo * w,
            oo == o * o,
            u2 == k * (w * ((bb * o) * o)),
    ;
    r.scaled(bb * o, al, o);
    r.chained((bb * o) * o, al * o, w);
    r.scaled((bb * o) * o, w, w);
    r.scaled(w * ((bb * o) * o), w * w, k);
    let u3 = k * (oo * (c * w));
    assert(kc * m == u3) by (nonlinear_arith)
        requires
            kc == k * c,
            m == oo * w,
            u3 == k * (oo * (c * w)),
    ;
    r.scaled(c * w, 1, oo);
    r.scaled(oo * (c * w), oo * 1, k);
    let u4 = (nn * oo) * (w * psi);
    assert(np * m == u4) by (nonlinear_arith)
        requires
            np == nn * psi,
            m == oo * w,
            u4 == (nn * oo) * (w * psi),
    ;
    r.scaled(nn * oo, k, w * psi);
    let u5 = k * (w * (yy * oo));
    assert(ky * m == u5) by (nonlinear_arith)
        requires
            ky == k * yy,
            m == oo * w,
            u5 == k * (w * (yy * oo)),
    ;
    r.scaled(yy * oo, x.ly, w);
    r.scaled(w * (yy * oo), w * x.ly, k);
    let (s1, s2, s3, s4, s5) = (
        k * (w * (x.lp + x.rho)),
        k * (w * w),
        k * (oo * 1),
        k * (w * psi),
        k * (w * x.ly),
    );
    r.scaled(u2, s2, 1);
    r.scaled(u5, s5, 1);
    r.summed(u1, s1, -u2, -s2);
    r.summed(u1 - u2, s1 - s2, u3, s3);
    r.summed(u1 - u2 + u3, s1 - s2 + s3, u4, s4);
    r.summed(u1 - u2 + u3 + u4, s1 - s2 + s3 + s4, -u5, -s5);
    r.chained(v * m, u1 - u2 + u3 + u4 - u5, s1 - s2 + s3 + s4 - s5);
    let (p1, p4, p5, q1) = (w * (x.lp + x.rho), w * psi, w * x.ly, w * w);
    assert(k * p1 - k * q1 + k * oo + k * p4 - k * p5 == k * (p1 - q1 + oo + p4 - p5))
        by (nonlinear_arith);
    let (z1, z2) = (x.lp + x.rho, x.ly);
    assert(w * (z1 - z2 + psi) == w * z1 - w * z2 + w * psi) by (nonlinear_arith);
}

/// `f(lo) + ... + f(hi)`.
pub open spec fn span(f: spec_fn(int) -> int, lo: int, hi: int) -> int
    decreases hi - lo + 1,
{
    if hi < lo {
        0
    } else {
        span(f, lo, hi - 1) + f(hi)
    }
}

proof fn lemma_span_front(f: spec_fn(int) -> int, lo: int, hi: int)
    requires
        lo <= hi,
    ensures
        span(f, lo, hi) == f(lo) + span(f, lo + 1, hi),
    decreases hi - lo,
{
    if lo < hi {
        lemma_span_front(f, lo, hi - 1);
    } else {
        assert(span(f, lo, lo - 1) == 0);
        assert(span(f, lo + 1, lo) == 0);
    }
}

/// The size of term `j` relative to the largest.
pub open spec fn size_int<F: Arithmetic>(r: Residues, b: TweedieBase, y: Double, j: int) -> int {
    r.at(
        exp::<F>(
            minus::<F>(b.wj_of::<F>(y, j as u64), b.wj_of::<F>(y, b.largest_of::<F>(y))),
        ),
    )
}

/// `s` holds the sums over the terms from `lo` to `hi`: of their sizes, of sizes
/// times `j` (times `-1 / (1 - p)`), of sizes times `j^2`, and of sizes times the
/// derivative along `p`.
pub open spec fn sums_over<F: Arithmetic>(
    r: Residues,
    b: TweedieBase,
    y: Double,
    o: int,
    s: SeriesSums,
    lo: int,
    hi: int,
) -> bool {
    &&& r.same(r.at(s.w), span(|j: int| size_int::<F>(r, b, y, j), lo, hi))
    &&& r.same(r.at(s.w1) * o, -span(|j: int| size_int::<F>(r, b, y, j) * j, lo, hi))
    &&& r.same(r.at(s.s2), span(|j: int| size_int::<F>(r, b, y, j) * j * j, lo, hi))
    &&& r.same(
        r.at(s.wp),
        span(
            |j: int| size_int::<F>(r, b, y, j) * r.at(term_slope::<F>(b, y, j as u64)),
            lo,
            hi,
        ),
    )
}

proof fn lemma_with_term<F: Arithmetic>(
    r: Residues,
    b: TweedieBase,
    y: Double,
    o: int,
    s: SeriesSums,
    j: u64,
    lo: int,
    hi: int,
)
    requires
        r.exact::<F>(),
        r.same(r.at(b.wb1_base) * o, -1),
        sums_over::<F>(r, b, y, o, s, lo, hi),
        lo <= hi + 1,
        j == hi + 1 || j == lo - 1,
    ensures
        sums_over::<F>(
            r,
            b,
            y,
            o,
            b.with_term::<F>(y, s, j),
            if j == hi + 1 {
                lo
            } else {
                j as int
            },
            if j == hi + 1 {
                j as int
            } else {
                hi
            },
        ),
{
    let n = natural::<F>(j);
    r.numbered::<F>(j);
    let k = j as int;
    let zd = b.size_of::<F>(y, j);
    let z = r.at(zd);
    assert(z == size_int::<F>(r, b, y, k));
    r.itself(z);
    let t = b.with_term::<F>(y, s, j);
    let f0 = |j: int| size_int::<F>(r, b, y, j);
    let f1 = |j: int| size_int::<F>(r, b, y, j) * j;
    let f2 = |j: int| size_int::<F>(r, b, y, j) * j * j;
    let f3 = |j: int| size_int::<F>(r, b, y, j) * r.at(term_slope::<F>(b, y, j as u64));
    let (l2, h2) = if j == hi + 1 {
        (lo, k)
    } else {
        (k, hi)
    };
    if j == hi + 1 {
    } else {
        lemma_span_front(f0, l2, h2);
        lemma_span_front(f1, l2, h2);
        lemma_span_front(f2, l2, h2);
        lemma_span_front(f3, l2, h2);
    }
    assert(span(f0, l2, h2) == span(f0, lo, hi) + z);
    assert(span(f1, l2, h2) == span(f1, lo, hi) + z * k);
    assert(span(f2, l2, h2) == span(f2, lo, hi) + z * k * k);
    r.on_plus::<F>(s.w, zd, span(f0, lo, hi), z);
    // Times `j`.
    let zj = times::<F>(zd, n);
    r.on_times::<F>(zd, n, z, k);
    let bv = r.at(b.wb1_base);
    r.itself(bv);
    let add1 = times::<F>(zj, b.wb1_base);
    r.on_times::<F>(zj, b.wb1_base, z * k, bv);
    r.itself(r.at(s.w1));
    r.on_plus::<F>(s.w1, add1, r.at(s.w1), z * k * bv);
    r.scaled(r.at(t.w1), r.at(s.w1) + z * k * bv, o);
    let (c, d) = (r.at(s.w1), z * k);
    assert((c + d * bv) * o == c * o + d * (bv * o)) by (nonlinear_arith);
    r.scaled(bv * o, -1, d);
    r.summed(c * o, -span(f1, lo, hi), d * (bv * o), d * -1);
    r.chained(r.at(t.w1) * o, c * o + d * (bv * o), -span(f1, lo, hi) - d);
    // Times `j` twice.
    r.on_times::<F>(zj, n, z * k, k);
    r.on_plus::<F>(s.s2, times::<F>(zj, n), span(f2, lo, hi), z * k * k);
    // Times the slope.
    let pd = term_slope::<F>(b, y, j);
    r.itself(r.at(pd));
    r.on_times::<F>(zd, pd, z, r.at(pd));
    r.on_plus::<F>(s.wp, times::<F>(zd, pd), span(f3, lo, hi), z * r.at(pd));
    assert(span(f3, l2, h2) == span(f3, lo, hi) + z * r.at(pd));
}

proof fn lemma_up<F: Arithmetic>(r: Residues, b: TweedieBase, y: Double, o: int, s: SeriesSums, j: u64, lo: int) -> (hi: int)
    requires
        r.exact::<F>(),
        r.same(r.at(b.wb1_base) * o, -1),
        sums_over::<F>(r, b, y, o, s, lo, j - 1),
        lo <= j,
    ensures
        j <= hi <= u64::MAX,
        sums_over::<F>(r, b, y, o, b.swept_up::<F>(y, s, j), lo, hi),
        b.small::<F>(y, hi as u64) || hi >= LAST_TERM,
        forall|m: int| j <= m < hi ==> !b.small::<F>(y, #[trigger] (m as u64)),
    decreases LAST_TERM - j,
{
    lemma_with_term::<F>(r, b, y, o, s, j, lo, j - 1);
    let t = b.with_term::<F>(y, s, j);
    if b.small::<F>(y, j) || j >= LAST_TERM {
        j as int
    } else {
        let next = (j + 1) as u64;
        let hi = lemma_up::<F>(r, b, y, o, t, next, lo);
        assert forall|m: int| j <= m < hi implies !b.small::<F>(y, #[trigger] (m as u64)) by {
            if m == j {
            }
        }
        hi
    }
}

proof fn lemma_down<F: Arithmetic>(r: Residues, b: TweedieBase, y: Double, o: int, s: SeriesSums, j: u64, hi: int) -> (lo: int)
    requires
        r.exact::<F>(),
        r.same(r.at(b.wb1_base) * o, -1),
        sums_over::<F>(r, b, y, o, s, j + 1, hi),
        j < hi,
    ensures
        1 <= lo <= j + 1,
        sums_over::<F>(r, b, y, o, b.swept_down::<F>(y, s, j), lo, hi),
        lo == 1 || b.small::<F>(y, lo as u64),
        forall|m: int| lo < m <= j ==> !b.small::<F>(y, #[trigger] (m as u64)),
    decreases j,
{
    if j < 1 {
        1
    } else {
        lemma_with_term::<F>(r, b, y, o, s, j, j + 1, hi);
        let t = b.with_term::<F>(y, s, j);
        if b.small::<F>(y, j) {
            j as int
        } else {
            let lo = lemma_down::<F>(r, b, y, o, t, (j - 1) as u64, hi);
            assert forall|m: int| lo < m <= j implies !b.small::<F>(y, #[trigger] (m as u64)) by {
                if m == j {
                }
            }
            lo
        }
    }
}

/// Every term counts once: the sums of a series run over consecutive terms around
/// the largest, on either side to the first small one, or to the limits.
pub proof fn law_tweedie_sums<F: Arithmetic>(r: Residues, y: Double, phi: Double, p: Double) -> (ends: (int, int))
    requires
        r.exact::<F>(),
        !r.same(1 - r.at(p), 0),
    ensures
        ({
            let b = tweedie_base_of::<F>(phi, p);
            let j = b.largest_of::<F>(y);
            &&& 1 <= ends.0 <= j <= ends.1 <= u64::MAX
            &&& sums_over::<F>(r, b, y, 1 - r.at(p), b.sums_of::<F>(y), ends.0, ends.1)
            &&& ends.0 == 1 || ends.0 == j || b.small::<F>(y, ends.0 as u64)
            &&& b.small::<F>(y, ends.1 as u64) || ends.1 >= LAST_TERM
            &&& forall|m: int|
                ends.0 < m < ends.1 && m != j ==> !b.small::<F>(y, #[trigger] (m as u64))
        }),
{
    let b = tweedie_base_of::<F>(phi, p);
    let j = b.largest_of::<F>(y);
    let o = 1 - r.at(p);
    lemma_base::<F>(r, y, phi, p);
    r.constants::<F>();
    let none = SeriesSums { w: zero(), w1: zero(), s2: zero(), wp: zero() };
    r.scaled(r.at(zero()), 0, o);
    assert(sums_over::<F>(r, b, y, o, none, j as int, j - 1));
    let hi = lemma_up::<F>(r, b, y, o, none, j, j as int);
    let lo = lemma_down::<F>(r, b, y, o, b.swept_up::<F>(y, none, j), (j - 1) as u64, hi);
    (lo, hi)
}

/// Log and derivatives of the series above zero, from the sums over its terms: with
/// `W` the sum of the sizes and `E` the mean over the terms weighted by them,
/// `dlogW/dln(phi) = E[j] / (1 - p)`, `d2logW/dln(phi)2 = Var[j] / (1 - p)^2` and
/// `dlogW/dp = E[dlogW_j/dp]`; the log is that of the largest term plus `ln W`.
pub proof fn law_tweedie_derivatives<F: Arithmetic>(
    r: Residues,
    y: Double,
    phi: Double,
    p: Double,
    lo: int,
    hi: int,
)
    requires
        r.exact::<F>(),
        !r.same(1 - r.at(p), 0),
        !y.at_most(zero()),
        sums_over::<F>(
            r,
            tweedie_base_of::<F>(phi, p),
            y,
            1 - r.at(p),
            tweedie_base_of::<F>(phi, p).sums_of::<F>(y),
            lo,
            hi,
        ),
        !r.same(r.at(tweedie_base_of::<F>(phi, p).sums_of::<F>(y).w), 0),
    ensures
        ({
            let b = tweedie_base_of::<F>(phi, p);
            let t = tweedie_terms_of::<F>(b, y);
            let o = 1 - r.at(p);
            let w = r.at(b.sums_of::<F>(y).w);
            let m1 = span(|j: int| size_int::<F>(r, b, y, j) * j, lo, hi);
            let m2 = span(|j: int| size_int::<F>(r, b, y, j) * j * j, lo, hi);
            let mp = span(
                |j: int| size_int::<F>(r, b, y, j) * r.at(term_slope::<F>(b, y, j as u64)),
                lo,
                hi,
            );
            &&& t.log_w == plus::<F>(
                b.wj_of::<F>(y, b.largest_of::<F>(y)),
                ln::<F>(b.sums_of::<F>(y).w),
            )
            &&& r.same(r.at(t.dlog_w_drho) * w * o, m1)
            &&& r.same(r.at(t.d2log_w_drho2) * (o * o) * (w * w), m2 * w - m1 * m1)
            &&& r.same(r.at(t.dlog_w_dp) * w, mp)
        }),
{
    let b = tweedie_base_of::<F>(phi, p);
    let s = b.sums_of::<F>(y);
    let t = tweedie_terms_of::<F>(b, y);
    let o = 1 - r.at(p);
    let w = r.at(s.w);
    let m1 = span(|j: int| size_int::<F>(r, b, y, j) * j, lo, hi);
    let m2 = span(|j: int| size_int::<F>(r, b, y, j) * j * j, lo, hi);
    let mp = span(
        |j: int| size_int::<F>(r, b, y, j) * r.at(term_slope::<F>(b, y, j as u64)),
        lo,
        hi,
    );
    lemma_base::<F>(r, y, phi, p);
    r.constants::<F>();
    r.itself(w);
    let w1 = r.at(s.w1);
    r.itself(w1);
    // Along the log of the dispersion.
    r.on_neg::<F>(s.w1, w1);
    r.on_over::<F>(s.w1.neg_spec(), s.w, -w1, w);
    let d1 = r.at(t.dlog_w_drho);
    r.scaled(d1 * w, -w1, o);
    r.scaled(w1 * o, -m1, 1);
    assert(-w1 * o == -(w1 * o)) by (nonlinear_arith);
    r.chained(d1 * w * o, -w1 * o, m1);
    // Along the power.
    r.on_over::<F>(s.wp, s.w, mp, w);
    // Twice along the log of the dispersion.
    r.on_neg::<F>(b.onep, o);
    let up = times::<F>(b.onep.neg_spec(), s.w1);
    r.on_times::<F>(b.onep.neg_spec(), s.w1, -o, w1);
    assert(-o * w1 == -(w1 * o)) by (nonlinear_arith);
    r.chained(r.at(up), -(w1 * o), m1);
    let ed = over::<F>(up, s.w);
    r.on_over::<F>(up, s.w, m1, w);
    let qd = over::<F>(s.s2, s.w);
    r.on_over::<F>(s.s2, s.w, m2, w);
    let (e, q) = (r.at(ed), r.at(qd));
    r.itself(e);
    r.itself(q);
    r.on_times::<F>(ed, ed, e, e);
    let gap = minus::<F>(qd, times::<F>(ed, ed));
    r.on_minus::<F>(qd, times::<F>(ed, ed), q, e * e);
    let inv = r.inverse::<F>(b.onep, o);
    r.product_not_zero(o, o, inv);
    let id = over::<F>(one(), b.onep2);
    r.on_over::<F>(one(), b.onep2, 1, o * o);
    let i = r.at(id);
    r.itself(i);
    r.on_times::<F>(id, gap, i, q - e * e);
    let d2 = r.at(t.d2log_w_drho2);
    let (oo, ww) = (o * o, w * w);
    r.scaled(d2, i * (q - e * e), oo);
    r.scaled(d2 * oo, i * (q - e * e) * oo, ww);
    let ee = e * e;
    assert(i * (q - ee) * oo * ww == (i * oo) * (q * ww - ee * ww)) by (nonlinear_arith);
    assert(q * ww == (q * w) * w) by (nonlinear_arith)
        requires
            ww == w * w,
    ;
    assert(ee * ww == (e * w) * (e * w)) by (nonlinear_arith)
        requires
            ee == e * e,
            ww == w * w,
    ;
    r.scaled(q * w, m2, w);
    r.multiplied(e * w, m1, e * w, m1);
    r.scaled((e * w) * (e * w), m1 * m1, 1);
    r.summed((q * w) * w, m2 * w, -((e * w) * (e * w)), -(m1 * m1));
    r.multiplied(i * oo, 1, (q * w) * w - (e * w) * (e * w), m2 * w - m1 * m1);
    r.chained(d2 * oo * ww, i * (q - ee) * oo * ww, m2 * w - m1 * m1);
}

/// The recurrence ends at the same place whatever it started to add to, and what
/// was added is the same.
proof fn lemma_climb_shifted<F: Arithmetic>(r: Residues, a: Double, b: Double, x: Double, second: bool, n: nat)
    requires
        r.exact::<F>(),
    ensures
        climbed::<F>(a, x, second, n).1 == climbed::<F>(b, x, second, n).1,
        r.same(
            r.at(climbed::<F>(a, x, second, n).0) - r.at(a),
            r.at(climbed::<F>(b, x, second, n).0) - r.at(b),
        ),
    decreases n,
{
    if n == 0 || !x.below(lit(SIX)) {
        r.itself(0);
    } else {
        let t = if second {
            over::<F>(one(), times::<F>(x, x))
        } else {
            over::<F>(one(), x)
        };
        let step = |acc: Double|
            if second {
                plus::<F>(acc, t)
            } else {
                minus::<F>(acc, t)
            };
        let (a2, b2) = (step(a), step(b));
        lemma_climb_shifted::<F>(r, a2, b2, plus::<F>(x, one()), second, (n - 1) as nat);
        r.itself(r.at(a));
        r.itself(r.at(b));
        r.itself(r.at(t));
        let d = if second {
            r.at(t)
        } else {
            -r.at(t)
        };
        if second {
            r.on_plus::<F>(a, t, r.at(a), r.at(t));
            r.on_plus::<F>(b, t, r.at(b), r.at(t));
        } else {
            r.on_minus::<F>(a, t, r.at(a), r.at(t));
            r.on_minus::<F>(b, t, r.at(b), r.at(t));
        }
        let (ca, cb) = (
            r.at(climbed::<F>(a, x, second, n).0),
            r.at(climbed::<F>(b, x, second, n).0),
        );
        r.itself(-r.at(a));
        r.itself(-r.at(b));
        r.summed(r.at(a2), r.at(a) + d, -r.at(a), -r.at(a));
        r.summed(r.at(b2), r.at(b) + d, -r.at(b), -r.at(b));
        r.summed(ca - r.at(a2), cb - r.at(b2), r.at(a2) - r.at(a), d);
        r.turned(r.at(b2) - r.at(b), d);
        r.itself(cb - r.at(b2));
        r.summed(cb - r.at(b2), cb - r.at(b2), d, r.at(b2) - r.at(b));
        r.chained(ca - r.at(a), cb - r.at(b2) + d, cb - r.at(b));
    }
}

/// A recurrence that has reached its end stays there.
proof fn lemma_climb_ended<F: Arithmetic>(a: Double, x: Double, second: bool, n: nat, m: nat)
    requires
        n <= m,
        !climbed::<F>(a, x, second, n).1.below(lit(SIX)),
    ensures
        climbed::<F>(a, x, second, m) == climbed::<F>(a, x, second, n),
    decreases n,
{
    if n == 0 || !x.below(lit(SIX)) {
    } else {
        let b = if second {
            plus::<F>(a, over::<F>(one(), times::<F>(x, x)))
        } else {
            minus::<F>(a, over::<F>(one(), x))
        };
        lemma_climb_ended::<F>(b, plus::<F>(x, one()), second, (n - 1) as nat, (m - 1) as nat);
    }
}

/// Where the climbs from `x` and from `x + 1` end, and what they differ by: the
/// term of `x`.
proof fn lemma_climb_step<F: Arithmetic>(r: Residues, x: Double, second: bool)
    requires
        r.exact::<F>(),
        x.below(lit(SIX)),
        !climb_of::<F>(x, second).1.below(lit(SIX)),
    ensures
        ({
            let t = if second {
                over::<F>(one(), times::<F>(x, x))
            } else {
                over::<F>(one(), x)
            };
            let (a, b) = (climb_of::<F>(x, second), climb_of::<F>(plus::<F>(x, one()), second));
            &&& a.1 == b.1
            &&& r.same(
                r.at(a.0),
                r.at(b.0) + if second {
                    r.at(t)
                } else {
                    -r.at(t)
                },
            )
        }),
{
    let t = if second {
        over::<F>(one(), times::<F>(x, x))
    } else {
        over::<F>(one(), x)
    };
    let a2 = if second {
        plus::<F>(zero(), t)
    } else {
        minus::<F>(zero(), t)
    };
    let d = if second {
        r.at(t)
    } else {
        -r.at(t)
    };
    let x2 = plus::<F>(x, one());
    let m = (MOST_STEPS - 1) as nat;
    assert(climb_of::<F>(x, second) == climbed::<F>(a2, x2, second, m));
    lemma_climb_shifted::<F>(r, a2, zero(), x2, second, m);
    lemma_climb_ended::<F>(zero(), x2, second, m, MOST_STEPS as nat);
    r.constants::<F>();
    r.itself(r.at(t));
    if second {
        r.on_plus::<F>(zero(), t, 0, r.at(t));
    } else {
        r.on_minus::<F>(zero(), t, 0, r.at(t));
    }
    let (ca, cb, z) = (
        r.at(climb_of::<F>(x, second).0),
        r.at(climb_of::<F>(x2, second).0),
        r.at(zero()),
    );
    r.summed(ca - r.at(a2), cb - z, r.at(a2), d);
    r.scaled(z, 0, 1);
    r.itself(cb + d);
    r.summed(cb + d, cb + d, -z, 0);
    r.chained(ca, cb - z + d, cb + d);
}

/// `psi(x + 1) = psi(x) + 1 / x`, wherever the recurrence is used.
pub proof fn law_digamma_recurrence<F: Arithmetic>(r: Residues, x: Double)
    requires
        r.exact::<F>(),
        x.below(lit(SIX)),
        !climb_of::<F>(x, false).1.below(lit(SIX)),
        !r.same(r.at(x), 0),
    ensures
        r.same(
            r.at(digamma_of::<F>(plus::<F>(x, one()))) * r.at(x),
            r.at(digamma_of::<F>(x)) * r.at(x) + 1,
        ),
{
    let x2 = plus::<F>(x, one());
    lemma_climb_step::<F>(r, x, false);
    let (a, b) = (climb_of::<F>(x, false), climb_of::<F>(x2, false));
    lemma_digamma_tail::<F>(r, x);
    lemma_digamma_tail::<F>(r, x2);
    r.constants::<F>();
    r.itself(r.at(x));
    r.on_over::<F>(one(), x, 1, r.at(x));
    let t = r.at(over::<F>(one(), x));
    let tail = digamma_tail::<F>(r, a.1);
    let (d, d2, xv) = (r.at(digamma_of::<F>(x)), r.at(digamma_of::<F>(x2)), r.at(x));
    r.itself(tail);
    r.summed(r.at(a.0), r.at(b.0) - t, tail, tail);
    r.chained(d, r.at(a.0) + tail, r.at(b.0) - t + tail);
    r.turned(d2, r.at(b.0) + tail);
    r.itself(-t);
    r.summed(r.at(b.0) + tail, d2, -t, -t);
    r.chained(d, r.at(b.0) - t + tail, d2 - t);
    r.scaled(d, d2 - t, xv);
    assert((d2 - t) * xv == d2 * xv - t * xv) by (nonlinear_arith);
    r.itself(d * xv);
    r.summed(d * xv, d * xv, t * xv, 1);
    r.itself(t * xv);
    r.summed(d * xv, d2 * xv - t * xv, t * xv, t * xv);
    r.turned(d * xv + t * xv, d2 * xv);
    r.chained(d2 * xv, d * xv + t * xv, d * xv + 1);
}

/// `psi'(x + 1) = psi'(x) - 1 / x^2`, wherever the recurrence is used.
pub proof fn law_trigamma_recurrence<F: Arithmetic>(r: Residues, x: Double)
    requires
        r.exact::<F>(),
        x.below(lit(SIX)),
        !climb_of::<F>(x, true).1.below(lit(SIX)),
        !r.same(r.at(x) * r.at(x), 0),
    ensures
        r.same(
            r.at(trigamma_of::<F>(plus::<F>(x, one()))) * (r.at(x) * r.at(x)),
            r.at(trigamma_of::<F>(x)) * (r.at(x) * r.at(x)) - 1,
        ),
{
    let x2 = plus::<F>(x, one());
    lemma_climb_step::<F>(r, x, true);
    let (a, b) = (climb_of::<F>(x, true), climb_of::<F>(x2, true));
    lemma_trigamma_tail::<F>(r, x);
    lemma_trigamma_tail::<F>(r, x2);
    r.constants::<F>();
    r.itself(r.at(x));
    let sq = r.at(x) * r.at(x);
    r.on_times::<F>(x, x, r.at(x), r.at(x));
    r.on_over::<F>(one(), times::<F>(x, x), 1, sq);
    let t = r.at(over::<F>(one(), times::<F>(x, x)));
    let tail = trigamma_tail::<F>(r, a.1);
    let (d, d2) = (r.at(trigamma_of::<F>(x)), r.at(trigamma_of::<F>(x2)));
    r.itself(tail);
    r.summed(r.at(a.0), r.at(b.0) + t, tail, tail);
    r.chained(d, r.at(a.0) + tail, r.at(b.0) + t + tail);
    r.turned(d2, r.at(b.0) + tail);
    r.itself(t);
    r.summed(r.at(b.0) + tail, d2, t, t);
    r.chained(d, r.at(b.0) + t + tail, d2 + t);
    r.scaled(d, d2 + t, sq);
    assert((d2 + t) * sq == d2 * sq + t * sq) by (nonlinear_arith);
    r.scaled(t * sq, 1, 1);
    r.itself(-(t * sq));
    r.summed(d * sq, d2 * sq + t * sq, -(t * sq), -(t * sq));
    r.turned(d * sq - t * sq, d2 * sq);
    r.itself(d * sq);
    r.summed(d * sq, d * sq, -(t * sq), -1);
    r.chained(d2 * sq, d * sq - t * sq, d * sq - 1);
}

/// What the digamma function adds to the recurrence, at the end of it.
pub open spec fn digamma_tail<F: Arithmetic>(r: Residues, x: Double) -> int {
    let xinv = over::<F>(one(), x);
    let xinv2 = times::<F>(xinv, xinv);
    let t2 = times::<F>(xinv2, xinv2);
    let t3 = times::<F>(t2, xinv2);
    let t4 = times::<F>(t3, xinv2);
    let t5 = times::<F>(t4, xinv2);
    let t6 = times::<F>(t5, xinv2);
    let t7 = times::<F>(t6, xinv2);
    let t8 = times::<F>(t7, xinv2);
    r.at(minus::<F>(ln::<F>(x), times::<F>(half(), xinv))) - r.at(over::<F>(xinv2, lit(TWELVE)))
        + r.at(over::<F>(t2, lit(C_120))) - r.at(over::<F>(t3, lit(C_252))) + r.at(
        over::<F>(t4, lit(C_240)),
    ) - r.at(over::<F>(t5, lit(C_132))) + r.at(times::<F>(t6, lit(C_691_32760))) - r.at(
        over::<F>(t7, lit(TWELVE)),
    ) + r.at(times::<F>(t8, lit(C_3617_8160)))
}

proof fn lemma_digamma_tail<F: Arithmetic>(r: Residues, x0: Double)
    requires
        r.exact::<F>(),
    ensures
        r.same(
            r.at(digamma_of::<F>(x0)),
            r.at(climb_of::<F>(x0, false).0) + digamma_tail::<F>(r, climb_of::<F>(x0, false).1),
        ),
{
    let (acc, x) = climb_of::<F>(x0, false);
    let xinv = over::<F>(one(), x);
    let xinv2 = times::<F>(xinv, xinv);
    let t2 = times::<F>(xinv2, xinv2);
    let t3 = times::<F>(t2, xinv2);
    let t4 = times::<F>(t3, xinv2);
    let t5 = times::<F>(t4, xinv2);
    let t6 = times::<F>(t5, xinv2);
    let t7 = times::<F>(t6, xinv2);
    let t8 = times::<F>(t7, xinv2);
    let c0 = minus::<F>(ln::<F>(x), times::<F>(half(), xinv));
    let c1 = over::<F>(xinv2, lit(TWELVE));
    let c2 = over::<F>(t2, lit(C_120));
    let c3 = over::<F>(t3, lit(C_252));
    let c4 = over::<F>(t4, lit(C_240));
    let c5 = over::<F>(t5, lit(C_132));
    let c6 = times::<F>(t6, lit(C_691_32760));
    let c7 = over::<F>(t7, lit(TWELVE));
    let c8 = times::<F>(t8, lit(C_3617_8160));
    r.itself(r.at(acc));
    r.itself(r.at(c0));
    r.itself(r.at(c1));
    r.itself(r.at(c2));
    r.itself(r.at(c3));
    r.itself(r.at(c4));
    r.itself(r.at(c5));
    r.itself(r.at(c6));
    r.itself(r.at(c7));
    r.itself(r.at(c8));
    let v0 = r.at(acc) + r.at(c0);
    let e0 = plus::<F>(acc, c0);
    r.on_plus::<F>(acc, c0, r.at(acc), r.at(c0));
    let e1 = minus::<F>(e0, c1);
    r.on_minus::<F>(e0, c1, v0, r.at(c1));
    let v1 = v0 - r.at(c1);
    let e2 = plus::<F>(e1, c2);
    r.on_plus::<F>(e1, c2, v1, r.at(c2));
    let v2 = v1 + r.at(c2);
    let e3 = minus::<F>(e2, c3);
    r.on_minus::<F>(e2, c3, v2, r.at(c3));
    let v3 = v2 - r.at(c3);
    let e4 = plus::<F>(e3, c4);
    r.on_plus::<F>(e3, c4, v3, r.at(c4));
    let v4 = v3 + r.at(c4);
    let e5 = minus::<F>(e4, c5);
    r.on_minus::<F>(e4, c5, v4, r.at(c5));
    let v5 = v4 - r.at(c5);
    let e6 = plus::<F>(e5, c6);
    r.on_plus::<F>(e5, c6, v5, r.at(c6));
    let v6 = v5 + r.at(c6);
    let e7 = minus::<F>(e6, c7);
    r.on_minus::<F>(e6, c7, v6, r.at(c7));
    let v7 = v6 - r.at(c7);
    r.on_plus::<F>(e7, c8, v7, r.at(c8));
}

/// What the trigamma function adds to the recurrence, at the end of it.
pub open spec fn trigamma_tail<F: Arithmetic>(r: Residues, x: Double) -> int {
    let xinv = over::<F>(one(), x);
    let xinv2 = times::<F>(xinv, xinv);
    let t1 = times::<F>(xinv2, xinv);
    let t2 = times::<F>(t1, xinv2);
    let t3 = times::<F>(t2, xinv2);
    let t4 = times::<F>(t3, xinv2);
    r.at(plus::<F>(xinv, times::<F>(half(), xinv2))) + r.at(over::<F>(t1, lit(SIX))) - r.at(
        over::<F>(t2, lit(THIRTY)),
    ) + r.at(over::<F>(t3, lit(FORTY_TWO))) - r.at(over::<F>(t4, lit(THIRTY)))
}

proof fn lemma_trigamma_tail<F: Arithmetic>(r: Residues, x0: Double)
    requires
        r.exact::<F>(),
    ensures
        r.same(
            r.at(trigamma_of::<F>(x0)),
            r.at(climb_of::<F>(x0, true).0) + trigamma_tail::<F>(r, climb_of::<F>(x0, true).1),
        ),
{
    let (acc, x) = climb_of::<F>(x0, true);
    let xinv = over::<F>(one(), x);
    let xinv2 = times::<F>(xinv, xinv);
    let t1 = times::<F>(xinv2, xinv);
    let t2 = times::<F>(t1, xinv2);
    let t3 = times::<F>(t2, xinv2);
    let t4 = times::<F>(t3, xinv2);
    let c0 = plus::<F>(xinv, times::<F>(half(), xinv2));
    let c1 = over::<F>(t1, lit(SIX));
    let c2 = over::<F>(t2, lit(THIRTY));
    let c3 = over::<F>(t3, lit(FORTY_TWO));
    let c4 = over::<F>(t4, lit(THIRTY));
    r.itself(r.at(acc));
    r.itself(r.at(c0));
    r.itself(r.at(c1));
    r.itself(r.at(c2));
    r.itself(r.at(c3));
    r.itself(r.at(c4));
    let e0 = plus::<F>(acc, c0);
    r.on_plus::<F>(acc, c0, r.at(acc), r.at(c0));
    let v0 = r.at(acc) + r.at(c0);
    let e1 = plus::<F>(e0, c1);
    r.on_plus::<F>(e0, c1, v0, r.at(c1));
    let v1 = v0 + r.at(c1);
    let e2 = minus::<F>(e1, c2);
    r.on_minus::<F>(e1, c2, v1, r.at(c2));
    let v2 = v1 - r.at(c2);
    let e3 = plus::<F>(e2, c3);
    r.on_plus::<F>(e2, c3, v2, r.at(c3));
    let v3 = v2 + r.at(c3);
    r.on_minus::<F>(e3, c4, v3, r.at(c4));
}

/// The reflection of the log gamma function: below 1/2,
/// `ln Gamma(x) + ln Gamma(1 - x) = ln(pi / sin(pi x))`.
pub proof fn law_log_gamma_reflection<F: Arithmetic>(r: Residues, x: Double)
    requires
        r.exact::<F>(),
        x.below(half()),
        !minus::<F>(one(), x).below(half()),
    ensures
        r.same(
            r.at(log_gamma_of::<F>(x)) + r.at(log_gamma_of::<F>(minus::<F>(one(), x))),
            r.at(ln::<F>(over::<F>(lit(PI), sin::<F>(times::<F>(lit(PI), x))))),
        ),
{
    let y = minus::<F>(one(), x);
    let l = ln::<F>(over::<F>(lit(PI), sin::<F>(times::<F>(lit(PI), x))));
    let g = log_gamma_of::<F>(y);
    r.itself(r.at(l));
    r.itself(r.at(g));
    r.on_minus::<F>(l, g, r.at(l), r.at(g));
    r.summed(r.at(log_gamma_of::<F>(x)), r.at(l) - r.at(g), r.at(g), r.at(g));
}

} // verus!
