//! Doubles as bit patterns, with the part of their behaviour that needs no
//! arithmetic: sign, finiteness, order, extremum and clamping.

use vstd::prelude::*;

verus! {

/// The sign bit of a double.
pub const SIGN_BIT: u64 = 0x8000_0000_0000_0000;

/// The pattern of positive infinity; larger magnitudes are NaN.
pub const INF_BITS: u64 = 0x7ff0_0000_0000_0000;

/// Bits of -2.
pub const MINUS_TWO: u64 = 0xc000_0000_0000_0000;

/// Bits of -0.5.
pub const MINUS_HALF: u64 = 0xbfe0_0000_0000_0000;

/// Bits of 50.
pub const FIFTY: u64 = 0x4049_0000_0000_0000;

/// Bits of 30.
pub const THIRTY: u64 = 0x403e_0000_0000_0000;

/// Bits of 1e-300.
pub const E_M300: u64 = 0x01a5_6e1f_c2f8_f359;

/// Bits of 1e-30.
pub const E_M30: u64 = 0x39b4_484b_feeb_c2a0;

/// Bits of 1e-20.
pub const E_M20: u64 = 0x3bc7_9ca1_0c92_4223;

/// Bits of 1e-12.
pub const E_M12: u64 = 0x3d71_9799_812d_ea11;

/// Bits of 1e-10.
pub const E_M10: u64 = 0x3ddb_7cdf_d9d7_bdbb;

/// Bits of 1e-9.
pub const E_M9: u64 = 0x3e11_2e0b_e826_d695;

/// Bits of 1e-8.
pub const E_M8: u64 = 0x3e45_798e_e230_8c3a;

/// Bits of 1e-7.
pub const E_M7: u64 = 0x3e7a_d7f2_9abc_af48;

/// Bits of 1e-6.
pub const E_M6: u64 = 0x3eb0_c6f7_a0b5_ed8d;

/// Bits of 1e-5.
pub const E_M5: u64 = 0x3ee4_f8b5_88e3_68f1;

/// Bits of 1e-4.
pub const E_M4: u64 = 0x3f1a_36e2_eb1c_432d;

/// Bits of 1e-3.
pub const E_M3: u64 = 0x3f50_624d_d2f1_a9fc;

/// Bits of 0.1.
pub const TENTH: u64 = 0x3fb9_9999_9999_999a;

/// Bits of 0.7.
pub const SEVEN_TENTHS: u64 = 0x3fe6_6666_6666_6666;

/// Bits of 1.5.
pub const THREE_HALVES: u64 = 0x3ff8_0000_0000_0000;

/// Bits of 3.
pub const THREE: u64 = 0x4008_0000_0000_0000;

/// Bits of 4.
pub const FOUR: u64 = 0x4010_0000_0000_0000;

/// Bits of 5.
pub const FIVE: u64 = 0x4014_0000_0000_0000;

/// Bits of 10.
pub const TEN: u64 = 0x4024_0000_0000_0000;

/// Bits of 1e7.
pub const E_7: u64 = 0x4163_12d0_0000_0000;

/// Bits of 1e12.
pub const E_12: u64 = 0x426d_1a94_a200_0000;

/// Bits of the distance from 1 to the next double, 2^-52.
pub const EPSILON: u64 = 0x3cb0_0000_0000_0000;

/// Bits of the smallest positive normal double, 2^-1022.
pub const MIN_POSITIVE: u64 = 0x0010_0000_0000_0000;

/// Bits of a quiet NaN.
pub const NAN_BITS: u64 = 0x7ff8_0000_0000_0000;

/// Bits of pi.
pub const PI: u64 = 0x4009_21fb_5444_2d18;

/// A double, held by its IEEE 754 bit pattern.
///
/// `==` compares patterns. [`Double::num_eq`] compares numbers.
#[derive(Clone, Copy, Debug, PartialEq, Eq, Structural)]
pub struct Double {
    /// The pattern, as `f64::to_bits` gives it.
    pub bits: u64,
}

impl Double {
    /// Sign bit set.
    pub open spec fn negative(self) -> bool {
        self.bits >= SIGN_BIT
    }

    /// The pattern without its sign bit.
    pub open spec fn magnitude(self) -> int {
        if self.bits >= SIGN_BIT {
            self.bits - SIGN_BIT
        } else {
            self.bits as int
        }
    }

    /// Not a number.
    pub open spec fn nan(self) -> bool {
        self.magnitude() > INF_BITS
    }

    /// Neither infinite nor NaN.
    pub open spec fn finite(self) -> bool {
        self.magnitude() < INF_BITS
    }

    /// Rank of a number in the order of the doubles. The two zeros share rank 0.
    pub open spec fn rank(self) -> int {
        if self.negative() {
            -self.magnitude()
        } else {
            self.magnitude()
        }
    }

    /// `self < other`; false as soon as one side is NaN.
    pub open spec fn below(self, other: Double) -> bool {
        !self.nan() && !other.nan() && self.rank() < other.rank()
    }

    /// `self <= other`; false as soon as one side is NaN.
    pub open spec fn at_most(self, other: Double) -> bool {
        !self.nan() && !other.nan() && self.rank() <= other.rank()
    }

    /// The pattern with its sign bit cleared.
    pub open spec fn abs_spec(self) -> Double {
        Double { bits: self.magnitude() as u64 }
    }

    /// The pattern with its sign bit flipped.
    pub open spec fn neg_spec(self) -> Double {
        if self.bits >= SIGN_BIT {
            Double { bits: (self.bits - SIGN_BIT) as u64 }
        } else {
            Double { bits: (self.bits + SIGN_BIT) as u64 }
        }
    }

    /// The larger number; NaN gives way to a number.
    pub open spec fn max_spec(self, other: Double) -> Double {
        if self.nan() || self.below(other) {
            other
        } else {
            self
        }
    }

    /// The smaller number; NaN gives way to a number.
    pub open spec fn min_spec(self, other: Double) -> Double {
        if self.nan() || other.below(self) {
            other
        } else {
            self
        }
    }

    /// The nearest point of `[lo, hi]`; NaN stays NaN.
    pub open spec fn clamp_spec(self, lo: Double, hi: Double) -> Double {
        if self.below(lo) {
            lo
        } else if hi.below(self) {
            hi
        } else {
            self
        }
    }

    /// Wraps a bit pattern.
    pub fn from_bits(bits: u64) -> (r: Double)
        ensures
            r.bits == bits,
    {
        Double { bits }
    }

    /// Magnitude of the pattern.
    fn mag(self) -> (m: u64)
        ensures
            m == self.magnitude(),
    {
        if self.bits >= SIGN_BIT {
            self.bits - SIGN_BIT
        } else {
            self.bits
        }
    }

    /// Whether this is NaN.
    pub fn is_nan(self) -> (b: bool)
        ensures
            b == self.nan(),
    {
        self.mag() > INF_BITS
    }

    /// Whether this is neither infinite nor NaN.
    pub fn is_finite(self) -> (b: bool)
        ensures
            b == self.finite(),
    {
        self.mag() < INF_BITS
    }

    /// `self < other`.
    pub fn lt(self, other: Double) -> (b: bool)
        ensures
            b == self.below(other),
    {
        if self.is_nan() || other.is_nan() {
            return false;
        }
        let a: u64 = self.mag();
        let c: u64 = other.mag();
        if self.bits >= SIGN_BIT {
            if other.bits >= SIGN_BIT {
                c < a
            } else {
                a > 0 || c > 0
            }
        } else if other.bits >= SIGN_BIT {
            false
        } else {
            a < c
        }
    }

    /// `self <= other`.
    pub fn le(self, other: Double) -> (b: bool)
        ensures
            b == self.at_most(other),
    {
        if self.is_nan() || other.is_nan() {
            return false;
        }
        !other.lt(self)
    }

    /// `self == other` as numbers: the zeros are equal, NaN equals nothing.
    pub fn num_eq(self, other: Double) -> (b: bool)
        ensures
            b == (self.at_most(other) && other.at_most(self)),
    {
        self.le(other) && other.le(self)
    }

    /// Absolute value.
    pub fn abs(self) -> (r: Double)
        ensures
            r == self.abs_spec(),
    {
        Double { bits: self.mag() }
    }

    /// Negation.
    pub fn neg(self) -> (r: Double)
        ensures
            r == self.neg_spec(),
    {
        if self.bits >= SIGN_BIT {
            Double { bits: self.bits - SIGN_BIT }
        } else {
            Double { bits: self.bits + SIGN_BIT }
        }
    }

    /// The larger of two numbers; NaN gives way to a number.
    pub fn max(self, other: Double) -> (r: Double)
        ensures
            r == self.max_spec(other),
    {
        if self.is_nan() || self.lt(other) {
            other
        } else {
            self
        }
    }

    /// The smaller of two numbers; NaN gives way to a number.
    pub fn min(self, other: Double) -> (r: Double)
        ensures
            r == self.min_spec(other),
    {
        if self.is_nan() || other.lt(self) {
            other
        } else {
            self
        }
    }

    /// Moves a number into `[lo, hi]`; NaN stays NaN.
    pub fn clamp(self, lo: Double, hi: Double) -> (r: Double)
        requires
            lo.at_most(hi),
        ensures
            r == self.clamp_spec(lo, hi),
    {
        if self.lt(lo) {
            lo
        } else if hi.lt(self) {
            hi
        } else {
            self
        }
    }
}

/// Positive zero.
#[verifier::allow_in_spec]
pub fn zero() -> Double
    returns
        (Double { bits: 0 }),
{
    Double { bits: 0 }
}

/// One.
#[verifier::allow_in_spec]
pub fn one() -> Double
    returns
        (Double { bits: 0x3ff0_0000_0000_0000 }),
{
    Double { bits: 0x3ff0_0000_0000_0000 }
}

/// One half.
#[verifier::allow_in_spec]
pub fn half() -> Double
    returns
        (Double { bits: 0x3fe0_0000_0000_0000 }),
{
    Double { bits: 0x3fe0_0000_0000_0000 }
}

/// Two.
#[verifier::allow_in_spec]
pub fn two() -> Double
    returns
        (Double { bits: 0x4000_0000_0000_0000 }),
{
    Double { bits: 0x4000_0000_0000_0000 }
}

/// The double with this bit pattern.
#[verifier::allow_in_spec]
pub fn lit(bits: u64) -> Double
    returns
        (Double { bits }),
{
    Double { bits }
}

/// Largest absolute value of a prefix, started at positive zero; NaN entries are
/// passed over.
pub open spec fn inf_norm_upto(v: Seq<Double>, n: nat) -> Double
    decreases n,
{
    if n == 0 {
        zero()
    } else {
        inf_norm_upto(v, (n - 1) as nat).max_spec(v[n - 1].abs_spec())
    }
}

/// Largest absolute value of a sequence.
pub open spec fn inf_norm_spec(v: Seq<Double>) -> Double {
    inf_norm_upto(v, v.len())
}

/// Largest absolute value of a vector, `0` for an empty one. NaN entries are
/// passed over.
pub fn inf_norm(v: &Vec<Double>) -> (r: Double)
    ensures
        r == inf_norm_spec(v@),
{
    let mut acc: Double = zero();
    for i in 0..v.len()
        invariant
            acc == inf_norm_upto(v@, i as nat),
    {
        acc = acc.max(v[i].abs());
    }
    acc
}

/// `<=` is a total order on numbers, up to the two zeros: any two compare, it is
/// transitive, and two numbers that are `<=` each other have the same rank.
pub proof fn law_order_is_total(a: Double, b: Double, c: Double)
    requires
        !a.nan(),
        !b.nan(),
        !c.nan(),
    ensures
        a.at_most(b) || b.at_most(a),
        a.at_most(b) && b.at_most(c) ==> a.at_most(c),
        a.at_most(b) && b.at_most(a) ==> a.rank() == b.rank(),
        a.below(b) <==> !b.at_most(a),
        a.rank() == b.rank() && a.negative() == b.negative() ==> a == b,
{
}

/// Every comparison with NaN is false.
pub proof fn law_nan_compares_false(a: Double, b: Double)
    requires
        a.nan() || b.nan(),
    ensures
        !a.below(b),
        !a.at_most(b),
        !b.below(a),
        !b.at_most(a),
{
}

/// A clamped number lies in the interval, a number of the interval is left
/// alone, and clamping twice is clamping once.
pub proof fn law_clamp(x: Double, lo: Double, hi: Double)
    requires
        lo.at_most(hi),
    ensures
        x.nan() ==> x.clamp_spec(lo, hi) == x,
        !x.nan() ==> lo.at_most(x.clamp_spec(lo, hi)) && x.clamp_spec(lo, hi).at_most(hi),
        lo.at_most(x) && x.at_most(hi) ==> x.clamp_spec(lo, hi) == x,
        x.clamp_spec(lo, hi).clamp_spec(lo, hi) == x.clamp_spec(lo, hi),
{
}

/// The norm bounds every entry that is a number, is never NaN and never
/// negative.
pub proof fn law_inf_norm_bounds(v: Seq<Double>, n: nat)
    requires
        n <= v.len(),
    ensures
        !inf_norm_upto(v, n).nan(),
        !inf_norm_upto(v, n).negative(),
        forall|i: int|
            0 <= i < n && !(#[trigger] v[i]).nan() ==> v[i].abs_spec().at_most(inf_norm_upto(v, n)),
    decreases n,
{
    if n > 0 {
        law_inf_norm_bounds(v, (n - 1) as nat);
    }
}

/// The norm is attained: it is zero or the absolute value of some entry.
pub proof fn law_inf_norm_attained(v: Seq<Double>, n: nat)
    requires
        n <= v.len(),
    ensures
        inf_norm_upto(v, n) == zero() || exists|i: int|
            0 <= i < n && inf_norm_upto(v, n) == (#[trigger] v[i]).abs_spec(),
    decreases n,
{
    if n > 0 {
        law_inf_norm_attained(v, (n - 1) as nat);
        if inf_norm_upto(v, n) == v[n - 1].abs_spec() {
        } else {
            assert(inf_norm_upto(v, n) == inf_norm_upto(v, (n - 1) as nat));
        }
    }
}

} // verus!
