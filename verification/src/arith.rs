//! Arithmetic on doubles, supplied by the caller.
//!
//! The numerical routines are written over [`Arithmetic`]: they say which
//! operation is applied to what and in which order, and leave the operations to
//! the implementation (the machine's own, in a fit). Nothing is assumed of an
//! operation except that it is a function of its operands, [`lawful`]; an
//! implementation over machine doubles meets this if it hands out one NaN.

use vstd::prelude::*;

use crate::double::{one, two, zero, Double};

verus! {

/// The operations on doubles that the numerical routines are built from.
pub trait Arithmetic {
    /// `a + b`.
    fn plus(a: Double, b: Double) -> Double;

    /// `a - b`.
    fn minus(a: Double, b: Double) -> Double;

    /// `a * b`.
    fn times(a: Double, b: Double) -> Double;

    /// `a / b`.
    fn over(a: Double, b: Double) -> Double;

    /// `a` to the power of `b`.
    fn power(a: Double, b: Double) -> Double;

    /// The square root of `a`.
    fn root(a: Double) -> Double;

    /// The exponential of `a`.
    fn exp(a: Double) -> Double;

    /// The natural logarithm of `a`.
    fn ln(a: Double) -> Double;

    /// The sine of `a`.
    fn sin(a: Double) -> Double;

    /// The double of a count.
    fn count(n: usize) -> Double;

    /// The double of an integer.
    fn whole(n: i64) -> Double;

    /// The double of a natural number.
    fn natural(n: u64) -> Double;

    /// The largest integer not above `a`, moved into the range of `i64`; 0 for
    /// NaN.
    fn floor_int(a: Double) -> i64;

    /// The integer nearest to `a`, moved into the range of `i64`; 0 for NaN.
    fn round_int(a: Double) -> i64;

    /// The decimal text of `a`.
    fn shown(a: Double) -> String;
}

/// Each operation has one result for given operands.
#[verifier::opaque]
pub open spec fn lawful<F: Arithmetic>() -> bool {
    &&& forall|a: Double, b: Double, r: Double, s: Double|
        #![trigger call_ensures(F::plus, (a, b), r), call_ensures(F::plus, (a, b), s)]
        call_ensures(F::plus, (a, b), r) && call_ensures(F::plus, (a, b), s) ==> r == s
    &&& forall|a: Double, b: Double, r: Double, s: Double|
        #![trigger call_ensures(F::minus, (a, b), r), call_ensures(F::minus, (a, b), s)]
        call_ensures(F::minus, (a, b), r) && call_ensures(F::minus, (a, b), s) ==> r == s
    &&& forall|a: Double, b: Double, r: Double, s: Double|
        #![trigger call_ensures(F::times, (a, b), r), call_ensures(F::times, (a, b), s)]
        call_ensures(F::times, (a, b), r) && call_ensures(F::times, (a, b), s) ==> r == s
    &&& forall|a: Double, b: Double, r: Double, s: Double|
        #![trigger call_ensures(F::over, (a, b), r), call_ensures(F::over, (a, b), s)]
        call_ensures(F::over, (a, b), r) && call_ensures(F::over, (a, b), s) ==> r == s
    &&& forall|a: Double, b: Double, r: Double, s: Double|
        #![trigger call_ensures(F::power, (a, b), r), call_ensures(F::power, (a, b), s)]
        call_ensures(F::power, (a, b), r) && call_ensures(F::power, (a, b), s) ==> r == s
    &&& forall|a: Double, r: Double, s: Double|
        #![trigger call_ensures(F::root, (a,), r), call_ensures(F::root, (a,), s)]
        call_ensures(F::root, (a,), r) && call_ensures(F::root, (a,), s) ==> r == s
    &&& forall|a: Double, r: Double, s: Double|
        #![trigger call_ensures(F::exp, (a,), r), call_ensures(F::exp, (a,), s)]
        call_ensures(F::exp, (a,), r) && call_ensures(F::exp, (a,), s) ==> r == s
    &&& forall|a: Double, r: Double, s: Double|
        #![trigger call_ensures(F::ln, (a,), r), call_ensures(F::ln, (a,), s)]
        call_ensures(F::ln, (a,), r) && call_ensures(F::ln, (a,), s) ==> r == s
    &&& forall|a: Double, r: Double, s: Double|
        #![trigger call_ensures(F::sin, (a,), r), call_ensures(F::sin, (a,), s)]
        call_ensures(F::sin, (a,), r) && call_ensures(F::sin, (a,), s) ==> r == s
    &&& forall|a: usize, r: Double, s: Double|
        #![trigger call_ensures(F::count, (a,), r), call_ensures(F::count, (a,), s)]
        call_ensures(F::count, (a,), r) && call_ensures(F::count, (a,), s) ==> r == s
    &&& forall|a: i64, r: Double, s: Double|
        #![trigger call_ensures(F::whole, (a,), r), call_ensures(F::whole, (a,), s)]
        call_ensures(F::whole, (a,), r) && call_ensures(F::whole, (a,), s) ==> r == s
    &&& forall|a: u64, r: Double, s: Double|
        #![trigger call_ensures(F::natural, (a,), r), call_ensures(F::natural, (a,), s)]
        call_ensures(F::natural, (a,), r) && call_ensures(F::natural, (a,), s) ==> r == s
    &&& forall|a: Double, r: i64, s: i64|
        #![trigger call_ensures(F::floor_int, (a,), r), call_ensures(F::floor_int, (a,), s)]
        call_ensures(F::floor_int, (a,), r) && call_ensures(F::floor_int, (a,), s) ==> r == s
    &&& forall|a: Double, r: i64, s: i64|
        #![trigger call_ensures(F::round_int, (a,), r), call_ensures(F::round_int, (a,), s)]
        call_ensures(F::round_int, (a,), r) && call_ensures(F::round_int, (a,), s) ==> r == s
}

/// Facts of correctly rounded arithmetic on finite doubles. Nothing is computed
/// from them; laws that compare results of operations ask for them.
pub open spec fn rounded<F: Arithmetic>() -> bool {
    // Products do not depend on the order of the factors.
    &&& forall|a: Double, b: Double| #[trigger] times::<F>(a, b) == times::<F>(b, a)
    // Subtracting nothing negative does not lead up.
    &&& forall|a: Double, b: Double|
        a.finite() && b.finite() && zero().at_most(b) ==> (#[trigger] minus::<F>(a, b)).at_most(a)
    // Adding nothing negative does not lead down.
    &&& forall|a: Double, b: Double|
        zero().at_most(a) && a.finite() && zero().at_most(b) && b.finite() ==> a.at_most(
            #[trigger] plus::<F>(a, b),
        )
    // A number less itself is zero.
    &&& forall|a: Double| a.finite() ==> #[trigger] minus::<F>(a, a) == zero()
    // A difference is at most twice the larger number.
    &&& forall|a: Double, b: Double|
        a.finite() && b.finite() ==> (#[trigger] minus::<F>(a, b)).abs_spec().at_most(
            times::<F>(two(), a.abs_spec().max_spec(b.abs_spec())),
        )
    // A product of numbers that are not negative is not negative.
    &&& forall|a: Double, b: Double|
        zero().at_most(a) && a.finite() && zero().at_most(b) && b.finite() ==> zero().at_most(
            #[trigger] times::<F>(a, b),
        )
    // A factor of at most 1 does not lead up.
    &&& forall|a: Double, c: Double|
        zero().at_most(a) && a.finite() && zero().at_most(c) && c.at_most(one()) ==> (
        #[trigger] times::<F>(a, c)).at_most(a)
    // A larger number has the larger product with a factor that is not negative.
    &&& forall|a: Double, b: Double, c: Double|
        #![trigger times::<F>(a, c), times::<F>(b, c)]
        zero().at_most(a) && a.at_most(b) && b.finite() && zero().at_most(c) && c.finite()
            ==> times::<F>(a, c).at_most(times::<F>(b, c))
    // The size of a product is the product of the sizes.
    &&& forall|a: Double, c: Double|
        a.finite() && zero().at_most(c) && c.finite() ==> (#[trigger] times::<F>(a, c)).abs_spec().at_most(
            times::<F>(a.abs_spec(), c),
        )
    // A quotient of numbers in order lies between 0 and 1.
    &&& forall|a: Double, b: Double|
        zero().at_most(a) && a.at_most(b) && zero().below(b) && b.finite() ==> zero().at_most(
            #[trigger] over::<F>(a, b),
        ) && over::<F>(a, b).at_most(one())
    // A quotient by something at least half as large lies between 0 and 2.
    &&& forall|x: Double, y: Double, m: Double|
        #![trigger over::<F>(x, y), times::<F>(two(), m)]
        zero().at_most(x) && x.finite() && zero().at_most(m) && m.at_most(y) && zero().below(y)
            && y.finite() && x.at_most(times::<F>(two(), m)) ==> zero().at_most(over::<F>(x, y))
            && over::<F>(x, y).at_most(two())
    // Nothing, divided, is nothing.
    &&& forall|y: Double| zero().below(y) && y.finite() ==> #[trigger] over::<F>(zero(), y) == zero()
}

/// The sum of two doubles under `F`.
pub closed spec fn plus_of<F: Arithmetic>(a: Double, b: Double) -> Double {
    choose|r: Double| call_ensures(F::plus, (a, b), r)
}

/// Adds.
#[verifier::when_used_as_spec(plus_of)]
pub fn plus<F: Arithmetic>(a: Double, b: Double) -> (r: Double)
    requires
        lawful::<F>(),
    ensures
        r == plus_of::<F>(a, b),
{
    proof {
        reveal(lawful);
    }
    F::plus(a, b)
}

/// The difference of two doubles under `F`.
pub closed spec fn minus_of<F: Arithmetic>(a: Double, b: Double) -> Double {
    choose|r: Double| call_ensures(F::minus, (a, b), r)
}

/// Subtracts.
#[verifier::when_used_as_spec(minus_of)]
pub fn minus<F: Arithmetic>(a: Double, b: Double) -> (r: Double)
    requires
        lawful::<F>(),
    ensures
        r == minus_of::<F>(a, b),
{
    proof {
        reveal(lawful);
    }
    F::minus(a, b)
}

/// The product of two doubles under `F`.
pub closed spec fn times_of<F: Arithmetic>(a: Double, b: Double) -> Double {
    choose|r: Double| call_ensures(F::times, (a, b), r)
}

/// Multiplies.
#[verifier::when_used_as_spec(times_of)]
pub fn times<F: Arithmetic>(a: Double, b: Double) -> (r: Double)
    requires
        lawful::<F>(),
    ensures
        r == times_of::<F>(a, b),
{
    proof {
        reveal(lawful);
    }
    F::times(a, b)
}

/// The quotient of two doubles under `F`.
pub closed spec fn over_of<F: Arithmetic>(a: Double, b: Double) -> Double {
    choose|r: Double| call_ensures(F::over, (a, b), r)
}

/// Divides.
#[verifier::when_used_as_spec(over_of)]
pub fn over<F: Arithmetic>(a: Double, b: Double) -> (r: Double)
    requires
        lawful::<F>(),
    ensures
        r == over_of::<F>(a, b),
{
    proof {
        reveal(lawful);
    }
    F::over(a, b)
}

/// The power of two doubles under `F`.
pub closed spec fn power_of<F: Arithmetic>(a: Double, b: Double) -> Double {
    choose|r: Double| call_ensures(F::power, (a, b), r)
}

/// Raises to a power.
#[verifier::when_used_as_spec(power_of)]
pub fn power<F: Arithmetic>(a: Double, b: Double) -> (r: Double)
    requires
        lawful::<F>(),
    ensures
        r == power_of::<F>(a, b),
{
    proof {
        reveal(lawful);
    }
    F::power(a, b)
}

/// The square root of a double under `F`.
pub closed spec fn root_of<F: Arithmetic>(a: Double) -> Double {
    choose|r: Double| call_ensures(F::root, (a,), r)
}

/// Takes the square root.
#[verifier::when_used_as_spec(root_of)]
pub fn root<F: Arithmetic>(a: Double) -> (r: Double)
    requires
        lawful::<F>(),
    ensures
        r == root_of::<F>(a),
{
    proof {
        reveal(lawful);
    }
    F::root(a)
}

/// The exponential of a double under `F`.
pub closed spec fn exp_of<F: Arithmetic>(a: Double) -> Double {
    choose|r: Double| call_ensures(F::exp, (a,), r)
}

/// Takes the exponential.
#[verifier::when_used_as_spec(exp_of)]
pub fn exp<F: Arithmetic>(a: Double) -> (r: Double)
    requires
        lawful::<F>(),
    ensures
        r == exp_of::<F>(a),
{
    proof {
        reveal(lawful);
    }
    F::exp(a)
}

/// The natural logarithm of a double under `F`.
pub closed spec fn ln_of<F: Arithmetic>(a: Double) -> Double {
    choose|r: Double| call_ensures(F::ln, (a,), r)
}

/// Takes the natural logarithm.
#[verifier::when_used_as_spec(ln_of)]
pub fn ln<F: Arithmetic>(a: Double) -> (r: Double)
    requires
        lawful::<F>(),
    ensures
        r == ln_of::<F>(a),
{
    proof {
        reveal(lawful);
    }
    F::ln(a)
}

/// The sine of a double under `F`.
pub closed spec fn sin_of<F: Arithmetic>(a: Double) -> Double {
    choose|r: Double| call_ensures(F::sin, (a,), r)
}

/// Takes the sine.
#[verifier::when_used_as_spec(sin_of)]
pub fn sin<F: Arithmetic>(a: Double) -> (r: Double)
    requires
        lawful::<F>(),
    ensures
        r == sin_of::<F>(a),
{
    proof {
        reveal(lawful);
    }
    F::sin(a)
}

/// The double of a count under `F`.
pub closed spec fn count_of<F: Arithmetic>(a: usize) -> Double {
    choose|r: Double| call_ensures(F::count, (a,), r)
}

/// The double of a count under `F`.
#[verifier::when_used_as_spec(count_of)]
pub fn count<F: Arithmetic>(a: usize) -> (r: Double)
    requires
        lawful::<F>(),
    ensures
        r == count_of::<F>(a),
{
    proof {
        reveal(lawful);
    }
    F::count(a)
}

/// The double of an integer under `F`.
pub closed spec fn whole_of<F: Arithmetic>(a: i64) -> Double {
    choose|r: Double| call_ensures(F::whole, (a,), r)
}

/// The double of an integer under `F`.
#[verifier::when_used_as_spec(whole_of)]
pub fn whole<F: Arithmetic>(a: i64) -> (r: Double)
    requires
        lawful::<F>(),
    ensures
        r == whole_of::<F>(a),
{
    proof {
        reveal(lawful);
    }
    F::whole(a)
}

/// The double of a natural number under `F`.
pub closed spec fn natural_of<F: Arithmetic>(a: u64) -> Double {
    choose|r: Double| call_ensures(F::natural, (a,), r)
}

/// Converts a natural number.
#[verifier::when_used_as_spec(natural_of)]
pub fn natural<F: Arithmetic>(a: u64) -> (r: Double)
    requires
        lawful::<F>(),
    ensures
        r == natural_of::<F>(a),
{
    proof {
        reveal(lawful);
    }
    F::natural(a)
}

/// The floor of a double as an integer under `F`.
pub closed spec fn floor_int_of<F: Arithmetic>(a: Double) -> i64 {
    choose|r: i64| call_ensures(F::floor_int, (a,), r)
}

/// The floor of a double as an integer under `F`.
#[verifier::when_used_as_spec(floor_int_of)]
pub fn floor_int<F: Arithmetic>(a: Double) -> (r: i64)
    requires
        lawful::<F>(),
    ensures
        r == floor_int_of::<F>(a),
{
    proof {
        reveal(lawful);
    }
    F::floor_int(a)
}

/// The nearest integer of a double under `F`.
pub closed spec fn round_int_of<F: Arithmetic>(a: Double) -> i64 {
    choose|r: i64| call_ensures(F::round_int, (a,), r)
}

/// The nearest integer of a double under `F`.
#[verifier::when_used_as_spec(round_int_of)]
pub fn round_int<F: Arithmetic>(a: Double) -> (r: i64)
    requires
        lawful::<F>(),
    ensures
        r == round_int_of::<F>(a),
{
    proof {
        reveal(lawful);
    }
    F::round_int(a)
}

/// `start` plus the first `n` terms, added from the left.
pub open spec fn total_from<F: Arithmetic>(start: Double, term: spec_fn(int) -> Double, n: nat) -> Double
    decreases n,
{
    if n == 0 {
        start
    } else {
        plus::<F>(total_from::<F>(start, term, (n - 1) as nat), term(n - 1))
    }
}

/// The sum of the first `n` terms, added from the left to positive zero.
pub open spec fn total<F: Arithmetic>(term: spec_fn(int) -> Double, n: nat) -> Double {
    total_from::<F>(zero(), term, n)
}

/// The sum of `n` rows of `p` terms each, added row by row to positive zero.
pub open spec fn total2<F: Arithmetic>(term: spec_fn(int, int) -> Double, n: nat, p: nat) -> Double
    decreases n,
{
    if n == 0 {
        zero()
    } else {
        total_from::<F>(
            total2::<F>(term, (n - 1) as nat, p),
            |j: int| term(n - 1, j),
            p,
        )
    }
}

/// Sums of equal terms are equal.
pub proof fn lemma_total_congruent<F: Arithmetic>(
    start: Double,
    f: spec_fn(int) -> Double,
    g: spec_fn(int) -> Double,
    n: nat,
)
    requires
        forall|k: int| 0 <= k < n ==> #[trigger] f(k) == g(k),
    ensures
        total_from::<F>(start, f, n) == total_from::<F>(start, g, n),
    decreases n,
{
    if n > 0 {
        lemma_total_congruent::<F>(start, f, g, (n - 1) as nat);
        assert(f(n - 1) == g(n - 1));
    }
}

} // verus!
