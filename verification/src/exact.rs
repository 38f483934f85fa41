//! Exact arithmetic, for laws about what the formulas compute.
//!
//! Doubles are finitely many, so no arithmetic on them adds and multiplies all
//! integers exactly. One can do so modulo a number: a [`Residues`] reads every
//! double as an integer, and [`Residues::exact`] says that the operations are those
//! of the integers modulo `q`. A law under this premise holds for every such
//! reading and every modulus, so it is an identity of the formulas themselves:
//! rounding plays no part in it. Nothing is computed from these facts.

use vstd::prelude::*;

use crate::arith::{
    count, minus, natural, over, plus, times, total, total2, total_from, whole, Arithmetic,
};
use crate::double::{half, lit, one, two, zero, Double, FOUR, THREE};

verus! {

/// Doubles read as integers modulo `q`.
pub struct Residues {
    /// Modulus.
    pub q: int,
    /// The integer that a double stands for.
    pub of: spec_fn(Double) -> int,
}

/// `q k`.
pub open spec fn multiple(q: int, k: int) -> int {
    q * k
}

/// The sum of the first `n` integers.
pub open spec fn sum(f: spec_fn(int) -> int, n: nat) -> int
    decreases n,
{
    if n == 0 {
        0
    } else {
        sum(f, (n - 1) as nat) + f(n - 1)
    }
}

impl Residues {
    /// `a` and `b` are the same modulo `q`.
    pub open spec fn same(self, a: int, b: int) -> bool {
        exists|k: int| a == b + #[trigger] multiple(self.q, k)
    }

    /// The integer that a double stands for.
    pub open spec fn at(self, a: Double) -> int {
        (self.of)(a)
    }

    /// The operations are exact modulo `q`: sums, differences, products, signs,
    /// quotients by what is not zero, and the numbers of counts and constants.
    #[verifier::opaque]
    pub open spec fn exact<F: Arithmetic>(self) -> bool {
        &&& forall|a: Double, b: Double|
            self.same(self.at(#[trigger] plus::<F>(a, b)), self.at(a) + self.at(b))
        &&& forall|a: Double, b: Double|
            self.same(self.at(#[trigger] minus::<F>(a, b)), self.at(a) - self.at(b))
        &&& forall|a: Double, b: Double|
            self.same(self.at(#[trigger] times::<F>(a, b)), self.at(a) * self.at(b))
        &&& forall|a: Double, b: Double|
            !self.same(self.at(b), 0) ==> self.same(
                self.at(#[trigger] over::<F>(a, b)) * self.at(b),
                self.at(a),
            )
        &&& forall|a: Double| self.same(self.at(#[trigger] a.neg_spec()), -self.at(a))
        &&& forall|n: usize| self.same(self.at(#[trigger] count::<F>(n)), n as int)
        &&& forall|n: i64| self.same(self.at(#[trigger] whole::<F>(n)), n as int)
        &&& forall|n: u64| self.same(self.at(#[trigger] natural::<F>(n)), n as int)
        &&& self.same(self.at(zero()), 0)
        &&& self.same(self.at(one()), 1)
        &&& self.same(self.at(two()), 2)
        &&& self.same(self.at(lit(THREE)), 3)
        &&& self.same(self.at(lit(FOUR)), 4)
        &&& self.same(2 * self.at(half()), 1)
        &&& !self.same(2, 0)
        &&& !self.same(1, 0)
    }

    /// What the constants stand for.
    pub proof fn constants<F: Arithmetic>(self)
        requires
            self.exact::<F>(),
        ensures
            self.same(self.at(zero()), 0),
            self.same(self.at(one()), 1),
            self.same(self.at(two()), 2),
            self.same(self.at(lit(THREE)), 3),
            self.same(self.at(lit(FOUR)), 4),
            self.same(2 * self.at(half()), 1),
            !self.same(2, 0),
            !self.same(1, 0),
    {
        reveal(Residues::exact);
    }

    /// What a count stands for.
    pub proof fn counted<F: Arithmetic>(self, n: usize)
        requires
            self.exact::<F>(),
        ensures
            self.same(self.at(count::<F>(n)), n as int),
    {
        reveal(Residues::exact);
    }

    /// What an integer stands for.
    pub proof fn integer<F: Arithmetic>(self, n: i64)
        requires
            self.exact::<F>(),
        ensures
            self.same(self.at(whole::<F>(n)), n as int),
    {
        reveal(Residues::exact);
    }

    /// Twice `a / 2 * b` is `a b`.
    pub proof fn on_half_product<F: Arithmetic>(self, a: Double, b: Double, x: int, y: int)
        requires
            self.exact::<F>(),
            self.same(self.at(a), x),
            self.same(self.at(b), y),
        ensures
            self.same(2 * self.at(times::<F>(times::<F>(half(), a), b)), x * y),
    {
        let h = times::<F>(half(), a);
        self.on_half::<F>(a, x);
        self.itself(self.at(h));
        self.on_times::<F>(h, b, self.at(h), y);
        let v = self.at(h);
        self.scaled(self.at(times::<F>(h, b)), v * y, 2);
        assert(2 * (v * y) == (2 * v) * y) by (nonlinear_arith);
        self.scaled(2 * v, x, y);
        self.chained(2 * self.at(times::<F>(h, b)), (2 * v) * y, x * y);
    }

    /// `a / (2 b)` times `2 b` is `a`.
    pub proof fn on_over_double<F: Arithmetic>(self, a: Double, b: Double, x: int, y: int)
        requires
            self.exact::<F>(),
            self.same(self.at(a), x),
            self.same(self.at(b), y),
            !self.same(y, 0),
        ensures
            self.same(self.at(over::<F>(a, times::<F>(two(), b))) * (2 * y), x),
    {
        self.constants::<F>();
        self.on_times::<F>(two(), b, 2, y);
        let h = self.at(half());
        assert(h * 2 == 2 * h);
        self.product_not_zero(2, y, h);
        self.on_over::<F>(a, times::<F>(two(), b), x, 2 * y);
    }

    /// What a natural number stands for.
    pub proof fn numbered<F: Arithmetic>(self, n: u64)
        requires
            self.exact::<F>(),
        ensures
            self.same(self.at(natural::<F>(n)), n as int),
    {
        reveal(Residues::exact);
    }

    /// Every number is the same as itself.
    pub proof fn itself(self, a: int)
        ensures
            self.same(a, a),
    {
        assert(a == a + multiple(self.q, 0)) by (nonlinear_arith);
    }

    /// The other way round.
    pub proof fn turned(self, a: int, b: int)
        requires
            self.same(a, b),
        ensures
            self.same(b, a),
    {
        let k = choose|k: int| a == b + #[trigger] multiple(self.q, k);
        assert(multiple(self.q, -k) == -multiple(self.q, k)) by (nonlinear_arith);
    }

    /// In two steps.
    pub proof fn chained(self, a: int, b: int, c: int)
        requires
            self.same(a, b),
            self.same(b, c),
        ensures
            self.same(a, c),
    {
        let k = choose|k: int| a == b + #[trigger] multiple(self.q, k);
        let l = choose|l: int| b == c + #[trigger] multiple(self.q, l);
        assert(multiple(self.q, k + l) == multiple(self.q, k) + multiple(self.q, l))
            by (nonlinear_arith);
    }

    /// Sums of what is the same.
    pub proof fn summed(self, a: int, b: int, c: int, d: int)
        requires
            self.same(a, b),
            self.same(c, d),
        ensures
            self.same(a + c, b + d),
    {
        let k = choose|k: int| a == b + #[trigger] multiple(self.q, k);
        let l = choose|l: int| c == d + #[trigger] multiple(self.q, l);
        assert(multiple(self.q, k + l) == multiple(self.q, k) + multiple(self.q, l))
            by (nonlinear_arith);
    }

    /// A multiple of what is the same.
    pub proof fn scaled(self, a: int, b: int, c: int)
        requires
            self.same(a, b),
        ensures
            self.same(a * c, b * c),
            self.same(c * a, c * b),
            self.same(-a, -b),
    {
        let k = choose|k: int| a == b + #[trigger] multiple(self.q, k);
        assert(a * c == b * c + multiple(self.q, k * c)) by (nonlinear_arith)
            requires
                a == b + multiple(self.q, k),
        ;
        assert(c * a == a * c) by (nonlinear_arith);
        assert(c * b == b * c) by (nonlinear_arith);
        assert(multiple(self.q, -k) == -multiple(self.q, k)) by (nonlinear_arith);
    }

    /// Products of what is the same.
    pub proof fn multiplied(self, a: int, b: int, c: int, d: int)
        requires
            self.same(a, b),
            self.same(c, d),
        ensures
            self.same(a * c, b * d),
    {
        self.scaled(a, b, c);
        self.scaled(c, d, b);
        self.chained(a * c, b * c, b * d);
    }

    /// What can be multiplied back to 1 can be cancelled.
    pub proof fn cancelled(self, a: int, b: int, c: int, inv: int)
        requires
            self.same(a * c, b * c),
            self.same(inv * c, 1),
        ensures
            self.same(a, b),
    {
        self.scaled(a * c, b * c, inv);
        self.scaled(inv * c, 1, a);
        self.scaled(inv * c, 1, b);
        assert((a * c) * inv == (inv * c) * a) by (nonlinear_arith);
        assert((b * c) * inv == (inv * c) * b) by (nonlinear_arith);
        self.turned((inv * c) * a, 1 * a);
        self.chained(a, (a * c) * inv, (b * c) * inv);
        self.chained(a, (b * c) * inv, b);
    }

    /// A sum stands for the sum.
    pub proof fn on_plus<F: Arithmetic>(self, a: Double, b: Double, x: int, y: int)
        requires
            self.exact::<F>(),
            self.same(self.at(a), x),
            self.same(self.at(b), y),
        ensures
            self.same(self.at(plus::<F>(a, b)), x + y),
    {
        reveal(Residues::exact);
        self.summed(self.at(a), x, self.at(b), y);
        self.chained(self.at(plus::<F>(a, b)), self.at(a) + self.at(b), x + y);
    }

    /// A difference stands for the difference.
    pub proof fn on_minus<F: Arithmetic>(self, a: Double, b: Double, x: int, y: int)
        requires
            self.exact::<F>(),
            self.same(self.at(a), x),
            self.same(self.at(b), y),
        ensures
            self.same(self.at(minus::<F>(a, b)), x - y),
    {
        reveal(Residues::exact);
        self.scaled(self.at(b), y, 0);
        self.summed(self.at(a), x, -self.at(b), -y);
        self.chained(self.at(minus::<F>(a, b)), self.at(a) - self.at(b), x - y);
    }

    /// A product stands for the product.
    pub proof fn on_times<F: Arithmetic>(self, a: Double, b: Double, x: int, y: int)
        requires
            self.exact::<F>(),
            self.same(self.at(a), x),
            self.same(self.at(b), y),
        ensures
            self.same(self.at(times::<F>(a, b)), x * y),
    {
        reveal(Residues::exact);
        self.multiplied(self.at(a), x, self.at(b), y);
        self.chained(self.at(times::<F>(a, b)), self.at(a) * self.at(b), x * y);
    }

    /// A product is not zero where one factor has an inverse and the other is not
    /// zero.
    pub proof fn product_not_zero(self, a: int, b: int, inv: int)
        requires
            self.same(inv * a, 1),
            !self.same(b, 0),
        ensures
            !self.same(a * b, 0),
            !self.same(b * a, 0),
    {
        assert(a * b == b * a) by (nonlinear_arith);
        if self.same(a * b, 0) {
            self.scaled(a * b, 0, inv);
            self.scaled(inv * a, 1, b);
            assert(inv * (a * b) == (inv * a) * b) by (nonlinear_arith);
            self.turned((inv * a) * b, 1 * b);
            self.chained(b, inv * (a * b), inv * 0);
        }
    }

    /// Two halves make a whole: numbers are the same where their doubles are.
    pub proof fn halved<F: Arithmetic>(self, a: int, b: int)
        requires
            self.exact::<F>(),
            self.same(2 * a, 2 * b),
        ensures
            self.same(a, b),
    {
        reveal(Residues::exact);
        let h = self.at(half());
        assert(h * 2 == 2 * h);
        assert(a * 2 == 2 * a);
        assert(b * 2 == 2 * b);
        self.cancelled(a, b, 2, h);
    }

    /// A quotient times its divisor stands for the dividend.
    pub proof fn on_over<F: Arithmetic>(self, a: Double, b: Double, x: int, y: int)
        requires
            self.exact::<F>(),
            self.same(self.at(a), x),
            self.same(self.at(b), y),
            !self.same(y, 0),
        ensures
            self.same(self.at(over::<F>(a, b)) * y, x),
    {
        reveal(Residues::exact);
        if self.same(self.at(b), 0) {
            self.turned(self.at(b), y);
            self.chained(y, self.at(b), 0);
        }
        let r = self.at(over::<F>(a, b));
        self.chained(r * self.at(b), self.at(a), x);
        self.turned(self.at(b), y);
        self.scaled(y, self.at(b), r);
        self.chained(r * y, r * self.at(b), x);
    }

    /// What is not zero has an inverse.
    pub proof fn inverse<F: Arithmetic>(self, b: Double, y: int) -> (inv: int)
        requires
            self.exact::<F>(),
            self.same(self.at(b), y),
            !self.same(y, 0),
        ensures
            self.same(inv * y, 1),
    {
        reveal(Residues::exact);
        self.on_over::<F>(one(), b, 1, y);
        self.at(over::<F>(one(), b))
    }

    /// A flipped sign stands for the negative number.
    pub proof fn on_neg<F: Arithmetic>(self, a: Double, x: int)
        requires
            self.exact::<F>(),
            self.same(self.at(a), x),
        ensures
            self.same(self.at(a.neg_spec()), -x),
    {
        reveal(Residues::exact);
        self.scaled(self.at(a), x, 0);
        self.chained(self.at(a.neg_spec()), -self.at(a), -x);
    }

    /// Twice a half of a number is the number.
    pub proof fn on_half<F: Arithmetic>(self, a: Double, x: int)
        requires
            self.exact::<F>(),
            self.same(self.at(a), x),
        ensures
            self.same(2 * self.at(times::<F>(half(), a)), x),
            self.same(2 * self.at(times::<F>(a, half())), x),
    {
        reveal(Residues::exact);
        let h = self.at(half());
        self.itself(h);
        self.on_times::<F>(half(), a, h, x);
        self.on_times::<F>(a, half(), x, h);
        self.scaled(self.at(times::<F>(half(), a)), h * x, 2);
        self.scaled(self.at(times::<F>(a, half())), x * h, 2);
        self.scaled(2 * h, 1, x);
        assert(2 * (h * x) == (2 * h) * x) by (nonlinear_arith);
        assert(2 * (x * h) == (2 * h) * x) by (nonlinear_arith);
        self.chained(2 * self.at(times::<F>(half(), a)), (2 * h) * x, x);
        self.chained(2 * self.at(times::<F>(a, half())), (2 * h) * x, x);
    }

    /// A sum of terms stands for the sum of what they stand for.
    pub proof fn on_total<F: Arithmetic>(self, term: spec_fn(int) -> Double, f: spec_fn(int) -> int, n: nat)
        requires
            self.exact::<F>(),
            forall|i: int| 0 <= i < n ==> self.same(self.at(#[trigger] term(i)), f(i)),
        ensures
            self.same(self.at(total::<F>(term, n)), sum(f, n)),
    {
        reveal(Residues::exact);
        self.on_total_from::<F>(zero(), term, 0, f, n);
    }

    /// The same, from a number on.
    pub proof fn on_total_from<F: Arithmetic>(
        self,
        start: Double,
        term: spec_fn(int) -> Double,
        x: int,
        f: spec_fn(int) -> int,
        n: nat,
    )
        requires
            self.exact::<F>(),
            self.same(self.at(start), x),
            forall|i: int| 0 <= i < n ==> self.same(self.at(#[trigger] term(i)), f(i)),
        ensures
            self.same(self.at(total_from::<F>(start, term, n)), x + sum(f, n)),
        decreases n,
    {
        if n > 0 {
            let m = (n - 1) as nat;
            self.on_total_from::<F>(start, term, x, f, m);
            assert(self.same(self.at(term(n - 1)), f(n - 1)));
            self.on_plus::<F>(
                total_from::<F>(start, term, m),
                term(n - 1),
                x + sum(f, m),
                f(n - 1),
            );
        }
    }

    /// A sum over rows and columns stands for the sum of the sums.
    pub proof fn on_total2<F: Arithmetic>(
        self,
        term: spec_fn(int, int) -> Double,
        f: spec_fn(int, int) -> int,
        n: nat,
        p: nat,
    )
        requires
            self.exact::<F>(),
            forall|i: int, j: int|
                0 <= i < n && 0 <= j < p ==> self.same(self.at(#[trigger] term(i, j)), f(i, j)),
        ensures
            self.same(
                self.at(total2::<F>(term, n, p)),
                sum(|i: int| sum(|j: int| f(i, j), p), n),
            ),
        decreases n,
    {
        reveal(Residues::exact);
        if n > 0 {
            let m = (n - 1) as nat;
            self.on_total2::<F>(term, f, m, p);
            let row = |j: int| term(n - 1, j);
            assert forall|j: int| 0 <= j < p implies self.same(
                self.at(#[trigger] row(j)),
                (|j: int| f(n - 1, j))(j),
            ) by {
                assert(self.same(self.at(term(n - 1, j)), f(n - 1, j)));
            }
            self.on_total_from::<F>(
                total2::<F>(term, m, p),
                row,
                sum(|i: int| sum(|j: int| f(i, j), p), m),
                |j: int| f(n - 1, j),
                p,
            );
        }
    }

    /// Sums of what is the same, term by term.
    pub proof fn same_sums(self, f: spec_fn(int) -> int, g: spec_fn(int) -> int, n: nat)
        requires
            forall|i: int| 0 <= i < n ==> self.same(#[trigger] f(i), g(i)),
        ensures
            self.same(sum(f, n), sum(g, n)),
        decreases n,
    {
        if n == 0 {
            self.itself(0);
        } else {
            self.same_sums(f, g, (n - 1) as nat);
            assert(self.same(f(n - 1), g(n - 1)));
            self.summed(sum(f, (n - 1) as nat), sum(g, (n - 1) as nat), f(n - 1), g(n - 1));
        }
    }
}

/// Equal terms have equal sums.
pub proof fn lemma_sum_congruent(f: spec_fn(int) -> int, g: spec_fn(int) -> int, n: nat)
    requires
        forall|i: int| 0 <= i < n ==> #[trigger] f(i) == g(i),
    ensures
        sum(f, n) == sum(g, n),
    decreases n,
{
    if n > 0 {
        lemma_sum_congruent(f, g, (n - 1) as nat);
        assert(f(n - 1) == g(n - 1));
    }
}

/// A factor can be taken out of a sum.
pub proof fn lemma_sum_scaled(c: int, f: spec_fn(int) -> int, n: nat)
    ensures
        sum(|i: int| c * f(i), n) == c * sum(f, n),
    decreases n,
{
    if n == 0 {
        assert(c * 0 == 0) by (nonlinear_arith);
    } else {
        lemma_sum_scaled(c, f, (n - 1) as nat);
        let s = sum(f, (n - 1) as nat);
        let t = f(n - 1);
        assert(c * (s + t) == c * s + c * t) by (nonlinear_arith);
    }
}

/// Sums add up term by term.
pub proof fn lemma_sum_added(f: spec_fn(int) -> int, g: spec_fn(int) -> int, n: nat)
    ensures
        sum(|i: int| f(i) + g(i), n) == sum(f, n) + sum(g, n),
    decreases n,
{
    if n > 0 {
        lemma_sum_added(f, g, (n - 1) as nat);
    }
}

/// The order of two sums does not matter.
pub proof fn lemma_sums_swapped(f: spec_fn(int, int) -> int, n: nat, p: nat)
    ensures
        sum(|i: int| sum(|j: int| f(i, j), p), n) == sum(|j: int| sum(|i: int| f(i, j), n), p),
    decreases n,
{
    let by_column = |j: int| sum(|i: int| f(i, j), n);
    if n == 0 {
        lemma_sum_zero(by_column, p);
    } else {
        let m = (n - 1) as nat;
        lemma_sums_swapped(f, m, p);
        let shorter = |j: int| sum(|i: int| f(i, j), m);
        let last = |j: int| f(n - 1, j);
        lemma_sum_added(shorter, last, p);
        lemma_sum_congruent(by_column, |j: int| shorter(j) + last(j), p);
    }
}

/// A sum of zeros is zero.
pub proof fn lemma_sum_zero(f: spec_fn(int) -> int, n: nat)
    requires
        forall|i: int| 0 <= i < n ==> #[trigger] f(i) == 0,
    ensures
        sum(f, n) == 0,
    decreases n,
{
    if n > 0 {
        lemma_sum_zero(f, (n - 1) as nat);
        assert(f(n - 1) == 0);
    }
}

/// Sums that differ in one term differ by it.
pub proof fn lemma_sum_changed(f: spec_fn(int) -> int, g: spec_fn(int) -> int, k: int, n: nat)
    requires
        0 <= k < n,
        forall|i: int| 0 <= i < n && i != k ==> #[trigger] f(i) == g(i),
    ensures
        sum(g, n) - sum(f, n) == g(k) - f(k),
    decreases n,
{
    if k == n - 1 {
        lemma_sum_congruent(f, g, (n - 1) as nat);
    } else {
        lemma_sum_changed(f, g, k, (n - 1) as nat);
        assert(f(n - 1) == g(n - 1));
    }
}

} // verus!
