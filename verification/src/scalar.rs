//! A 64-bit float carried by its bit pattern.
//!
//! The rules of this library store, compare and order measurements; they never
//! add or multiply them. Comparing IEEE-754 binary64 values is a comparison of
//! integers, so it is done, and proved, on the bits.

use vstd::prelude::*;

verus! {

/// The bits of infinity. A magnitude above it is not a number.
pub const INFINITY_BITS: u64 = 0x7ff0_0000_0000_0000;

/// The sign bit.
pub const SIGN_BIT: u64 = 0x8000_0000_0000_0000;

/// An IEEE-754 binary64 value, by its bits.
#[derive(Clone, Copy, PartialEq, Eq, Structural, Debug)]
pub struct Scalar {
    pub bits: u64,
}

impl Scalar {
    /// 0.0
    #[verifier::allow_in_spec]
    pub fn zero() -> Scalar
        returns
            (Scalar { bits: 0 }),
    {
        Scalar { bits: 0 }
    }

    /// 1.0
    #[verifier::allow_in_spec]
    pub fn unit() -> Scalar
        returns
            (Scalar { bits: 0x3ff0_0000_0000_0000 }),
    {
        Scalar { bits: 0x3ff0_0000_0000_0000 }
    }

    /// 100.0
    #[verifier::allow_in_spec]
    pub fn hundred() -> Scalar
        returns
            (Scalar { bits: 0x4059_0000_0000_0000 }),
    {
        Scalar { bits: 0x4059_0000_0000_0000 }
    }

    /// 10.0
    #[verifier::allow_in_spec]
    pub fn ten() -> Scalar
        returns
            (Scalar { bits: 0x4024_0000_0000_0000 }),
    {
        Scalar { bits: 0x4024_0000_0000_0000 }
    }

    /// 0.9
    #[verifier::allow_in_spec]
    pub fn nine_tenths() -> Scalar
        returns
            (Scalar { bits: 0x3fec_cccc_cccc_cccd }),
    {
        Scalar { bits: 0x3fec_cccc_cccc_cccd }
    }

    /// 0.1
    #[verifier::allow_in_spec]
    pub fn tenth() -> Scalar
        returns
            (Scalar { bits: 0x3fb9_9999_9999_999a }),
    {
        Scalar { bits: 0x3fb9_9999_9999_999a }
    }

    /// 0.01
    #[verifier::allow_in_spec]
    pub fn hundredth() -> Scalar
        returns
            (Scalar { bits: 0x3f84_7ae1_47ae_147b }),
    {
        Scalar { bits: 0x3f84_7ae1_47ae_147b }
    }

    /// 90.0
    #[verifier::allow_in_spec]
    pub fn quarter_turn() -> Scalar
        returns
            (Scalar { bits: 0x4056_8000_0000_0000 }),
    {
        Scalar { bits: 0x4056_8000_0000_0000 }
    }

    /// 180.0
    #[verifier::allow_in_spec]
    pub fn half_turn() -> Scalar
        returns
            (Scalar { bits: 0x4066_8000_0000_0000 }),
    {
        Scalar { bits: 0x4066_8000_0000_0000 }
    }

    /// 270.0
    #[verifier::allow_in_spec]
    pub fn three_quarter_turn() -> Scalar
        returns
            (Scalar { bits: 0x4070_e000_0000_0000 }),
    {
        Scalar { bits: 0x4070_e000_0000_0000 }
    }

    /// Whether the sign bit is set.
    pub open spec fn negative(self) -> bool {
        self.bits >= SIGN_BIT
    }

    /// The bits without the sign.
    pub open spec fn magnitude(self) -> int {
        if self.bits >= SIGN_BIT {
            self.bits - SIGN_BIT
        } else {
            self.bits as int
        }
    }

    /// Whether the value is not a number.
    pub open spec fn nan(self) -> bool {
        self.magnitude() > INFINITY_BITS
    }

    /// Whether the value is neither infinite nor not-a-number.
    pub open spec fn finite(self) -> bool {
        self.magnitude() < INFINITY_BITS
    }

    /// The integer that orders numbers: both zeros are 0.
    pub open spec fn rank(self) -> int {
        if self.negative() {
            -self.magnitude()
        } else {
            self.magnitude()
        }
    }

    /// The integer that orders every bit pattern, not-a-number and the two
    /// zeros included.
    pub open spec fn total_rank(self) -> int {
        if self.negative() {
            -self.magnitude() - 1
        } else {
            self.magnitude()
        }
    }

    /// `a < b` on floats: false where either is not a number.
    pub open spec fn below(self, other: Scalar) -> bool {
        !self.nan() && !other.nan() && self.rank() < other.rank()
    }

    /// `a <= b` on floats: false where either is not a number.
    pub open spec fn at_most(self, other: Scalar) -> bool {
        !self.nan() && !other.nan() && self.rank() <= other.rank()
    }

    /// `a == b` on floats: the two zeros are equal, and not-a-number equals
    /// nothing.
    pub open spec fn equals(self, other: Scalar) -> bool {
        !self.nan() && !other.nan() && self.rank() == other.rank()
    }

    fn unsigned(self) -> (r: u64)
        ensures
            r == self.magnitude(),
    {
        if self.bits >= SIGN_BIT {
            self.bits - SIGN_BIT
        } else {
            self.bits
        }
    }

    /// The value without its sign.
    pub open spec fn size(self) -> Scalar {
        Scalar { bits: self.magnitude() as u64 }
    }

    /// The value without its sign.
    pub fn abs(self) -> (r: Scalar)
        ensures
            r == self.size(),
    {
        Scalar { bits: self.unsigned() }
    }

    /// Whether the value is not a number.
    pub fn is_nan(self) -> (r: bool)
        ensures
            r == self.nan(),
    {
        self.unsigned() > INFINITY_BITS
    }

    /// Whether the value is neither infinite nor not-a-number.
    pub fn is_finite(self) -> (r: bool)
        ensures
            r == self.finite(),
    {
        self.unsigned() < INFINITY_BITS
    }

    /// `self < other`, as floats compare.
    pub fn lt(self, other: Scalar) -> (r: bool)
        ensures
            r == self.below(other),
    {
        if self.is_nan() || other.is_nan() {
            return false;
        }
        let a: u64 = self.unsigned();
        let b: u64 = other.unsigned();
        if self.bits >= SIGN_BIT {
            if other.bits >= SIGN_BIT {
                a > b
            } else {
                a > 0 || b > 0
            }
        } else if other.bits >= SIGN_BIT {
            false
        } else {
            a < b
        }
    }

    /// `self <= other`, as floats compare.
    pub fn le(self, other: Scalar) -> (r: bool)
        ensures
            r == self.at_most(other),
    {
        !self.is_nan() && !other.is_nan() && !other.lt(self)
    }

    /// `self == other`, as floats compare.
    pub fn same(self, other: Scalar) -> (r: bool)
        ensures
            r == self.equals(other),
    {
        self.le(other) && other.le(self)
    }

    /// Whether `self` comes strictly before `other` in the total order of bit
    /// patterns: negative before positive, -0 before +0, not-a-number outermost.
    pub fn total_lt(self, other: Scalar) -> (r: bool)
        ensures
            r == (self.total_rank() < other.total_rank()),
    {
        let a: u64 = self.unsigned();
        let b: u64 = other.unsigned();
        if self.bits >= SIGN_BIT {
            if other.bits >= SIGN_BIT {
                a > b
            } else {
                true
            }
        } else if other.bits >= SIGN_BIT {
            false
        } else {
            a < b
        }
    }
}

/// Comparing never says both `a < b` and `b < a`, nor `a < a`; and two numbers
/// that are neither way apart rank the same.
pub proof fn law_below_is_a_strict_order(a: Scalar, b: Scalar, c: Scalar)
    ensures
        !a.below(a),
        a.below(b) ==> !b.below(a),
        a.below(b) && b.below(c) ==> a.below(c),
        !a.nan() && !b.nan() && !a.below(b) && !b.below(a) ==> a.rank() == b.rank(),
{
}

/// The total order tells every two bit patterns apart.
pub proof fn law_total_order_is_total(a: Scalar, b: Scalar)
    ensures
        a.total_rank() == b.total_rank() ==> a == b,
{
}

/// Comparing goes by the value that the bits stand for: among numbers without a
/// sign the greater bits are the greater number, among numbers with one the
/// greater bits are the lesser, one with a sign is below one without, the two
/// zeros are the same number, and what is no number compares with nothing.
pub proof fn law_comparing_follows_the_bits(a: Scalar, b: Scalar, lt: bool, le: bool, same: bool)
    requires
        call_ensures(Scalar::lt, (a, b), lt),
        call_ensures(Scalar::le, (a, b), le),
        call_ensures(Scalar::same, (a, b), same),
    ensures
        a.bits <= 0x7ff0_0000_0000_0000 && b.bits <= 0x7ff0_0000_0000_0000 ==> {
            &&& lt == (a.bits < b.bits)
            &&& le == (a.bits <= b.bits)
            &&& same == (a.bits == b.bits)
        },
        0x8000_0000_0000_0000 <= a.bits <= 0xfff0_0000_0000_0000 && 0x8000_0000_0000_0000
            <= b.bits <= 0xfff0_0000_0000_0000 ==> {
            &&& lt == (a.bits > b.bits)
            &&& le == (a.bits >= b.bits)
            &&& same == (a.bits == b.bits)
        },
        0x8000_0000_0000_0000 <= a.bits <= 0xfff0_0000_0000_0000 && b.bits
            <= 0x7ff0_0000_0000_0000 ==> {
            let zeros = a.bits == 0x8000_0000_0000_0000 && b.bits == 0;
            &&& lt == !zeros
            &&& le
            &&& same == zeros
        },
        a.bits <= 0x7ff0_0000_0000_0000 && 0x8000_0000_0000_0000 <= b.bits
            <= 0xfff0_0000_0000_0000 ==> {
            let zeros = a.bits == 0 && b.bits == 0x8000_0000_0000_0000;
            &&& !lt
            &&& le == zeros
            &&& same == zeros
        },
        0x7ff0_0000_0000_0000 < a.bits < 0x8000_0000_0000_0000 || a.bits
            > 0xfff0_0000_0000_0000 || 0x7ff0_0000_0000_0000 < b.bits < 0x8000_0000_0000_0000
            || b.bits > 0xfff0_0000_0000_0000 ==> !lt && !le && !same,
{
}

/// What is no number, what is neither infinite nor none, and what a number is
/// without its sign, by the bits.
pub proof fn law_sorts_of_numbers(a: Scalar, nan: bool, finite: bool, size: Scalar)
    requires
        call_ensures(Scalar::is_nan, (a,), nan),
        call_ensures(Scalar::is_finite, (a,), finite),
        call_ensures(Scalar::abs, (a,), size),
    ensures
        nan == (0x7ff0_0000_0000_0000 < a.bits < 0x8000_0000_0000_0000 || a.bits
            > 0xfff0_0000_0000_0000),
        finite == (a.bits < 0x7ff0_0000_0000_0000 || 0x8000_0000_0000_0000 <= a.bits
            < 0xfff0_0000_0000_0000),
        a.bits < 0x8000_0000_0000_0000 ==> size == a,
        a.bits >= 0x8000_0000_0000_0000 ==> size.bits == a.bits - 0x8000_0000_0000_0000,
{
}

/// The total order puts every pattern with a sign below every one without,
/// those without by their bits, and those with one the other way round.
pub proof fn law_the_total_order_follows_the_bits(a: Scalar, b: Scalar, before: bool)
    requires
        call_ensures(Scalar::total_lt, (a, b), before),
    ensures
        a.bits < 0x8000_0000_0000_0000 && b.bits < 0x8000_0000_0000_0000 ==> before == (a.bits
            < b.bits),
        a.bits >= 0x8000_0000_0000_0000 && b.bits >= 0x8000_0000_0000_0000 ==> before == (a.bits
            > b.bits),
        a.bits >= 0x8000_0000_0000_0000 && b.bits < 0x8000_0000_0000_0000 ==> before,
        a.bits < 0x8000_0000_0000_0000 && b.bits >= 0x8000_0000_0000_0000 ==> !before,
        before == (a.total_rank() < b.total_rank()),
{
}

/// Whether bits stand for a whole number: one and the fraction behind it, times
/// two to the power that the exponent says, is the number.
pub open spec fn stands_for_whole(s: Scalar, power: nat, times: nat, n: nat) -> bool {
    &&& s.bits / 0x10_0000_0000_0000 == 1023 + power
    &&& (0x10_0000_0000_0000 + s.bits % 0x10_0000_0000_0000) * times == n * 0x10_0000_0000_0000
}

/// The measures that have a name are the numbers of that name.
pub proof fn law_named_measures_are_what_they_say()
    ensures
        Scalar::zero().bits == 0,
        stands_for_whole(Scalar::unit(), 0, 1, 1),
        stands_for_whole(Scalar::ten(), 3, 8, 10),
        stands_for_whole(Scalar::hundred(), 6, 64, 100),
        stands_for_whole(Scalar::quarter_turn(), 6, 64, 90),
        stands_for_whole(Scalar::half_turn(), 7, 128, 180),
        stands_for_whole(Scalar::three_quarter_turn(), 8, 256, 270),
{
}

} // verus!
