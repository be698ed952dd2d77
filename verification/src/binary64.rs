//! IEEE 754 binary64 values, held by their bit pattern.
//!
//! A value is taken apart into sign, exponent and fraction with integer arithmetic, and what the
//! operations return is stated over the exact number that the pattern stands for.
use vstd::arithmetic::power2::{
    lemma_pow2_adds, lemma_pow2_pos, lemma_pow2_strictly_increases, pow2,
};
use vstd::prelude::*;

verus! {

/// A binary64 value.
#[derive(Clone, Copy, Debug, PartialEq, Eq, Structural)]
pub struct Binary64 {
    pub bits: u64,
}

/// Where a value lies as seen from a whole number.
#[derive(Clone, Copy, Debug, PartialEq, Eq, Structural)]
pub enum Side {
    Before,
    At,
    After,
}

/// What is left of a non-negative number after a division by a power of two.
enum Quotient {
    /// The division leaves no remainder.
    Exact(u128),
    /// The whole part of a division that leaves a remainder.
    Inexact(u128),
    /// The quotient is too large to be of interest.
    Beyond,
}

/// The number of fractions that share an exponent: two to the power of 52.
pub const FRACTIONS: u64 = 0x10_0000_0000_0000;

/// The weight of the sign bit: two to the power of 63.
pub const SIGN: u64 = 0x8000_0000_0000_0000;

/// The bit patterns of zero, one, ten and one hundred.
pub const ZERO_BITS: u64 = 0;

pub const ONE_BITS: u64 = 0x3FF0_0000_0000_0000;

pub const TEN_BITS: u64 = 0x4024_0000_0000_0000;

pub const HUNDRED_BITS: u64 = 0x4059_0000_0000_0000;

/// The whole number one, counted in the smallest positive binary64 value.
pub open spec fn one() -> nat {
    pow2(1074)
}

impl Binary64 {
    pub open spec fn negative(self) -> bool {
        self.bits >= SIGN
    }

    /// The pattern without its sign bit.
    pub open spec fn unsigned_bits(self) -> int {
        self.bits as int % SIGN as int
    }

    pub open spec fn exponent(self) -> int {
        self.unsigned_bits() / FRACTIONS as int
    }

    pub open spec fn fraction(self) -> int {
        self.unsigned_bits() % FRACTIONS as int
    }

    /// Whether the pattern is one of those that stand for no number.
    pub open spec fn is_nan(self) -> bool {
        self.exponent() == 2047 && self.fraction() != 0
    }

    /// Whether the pattern stands for a number, which the infinities are not.
    pub open spec fn is_finite(self) -> bool {
        self.exponent() <= 2046
    }

    /// The absolute value, counted in the smallest positive binary64 value, which is two to the
    /// power of -1074. An infinity counts as two to the power of 1024, just above every number.
    pub open spec fn magnitude(self) -> int {
        if self.exponent() == 0 {
            self.fraction()
        } else {
            (FRACTIONS + self.fraction()) * pow2((self.exponent() - 1) as nat)
        }
    }

    /// The value, counted in the smallest positive binary64 value.
    pub open spec fn units(self) -> int {
        if self.negative() {
            -self.magnitude()
        } else {
            self.magnitude()
        }
    }

    /// The order of binary64 values, in which a pattern that is no number is above nothing.
    pub open spec fn above(self, other: Binary64) -> bool {
        !self.is_nan() && !other.is_nan() && self.units() > other.units()
    }

    /// The larger of two values, or the one that is a number.
    pub open spec fn larger(self, other: Binary64) -> Binary64 {
        if self.is_nan() || other.above(self) {
            other
        } else {
            self
        }
    }

    /// The value without its fractional part, brought into the range of `u64`.
    pub open spec fn truncated(self) -> int {
        if self.is_nan() || self.units() <= 0 {
            0
        } else if self.units() >= one() * 0x1_0000_0000_0000_0000 {
            u64::MAX as int
        } else {
            self.units() / one() as int
        }
    }

    /// Where the value lies as seen from a whole number.
    pub open spec fn side(self, whole: int) -> Side {
        if self.units() < whole * one() {
            Side::Before
        } else if self.units() == whole * one() {
            Side::At
        } else {
            Side::After
        }
    }
}

/// The magnitude grows with the pattern: patterns without their sign bit are ordered as the
/// numbers that they stand for.
pub proof fn lemma_magnitude_is_monotone(a: Binary64, b: Binary64)
    ensures
        a.unsigned_bits() < b.unsigned_bits() <==> a.magnitude() < b.magnitude(),
        a.unsigned_bits() == b.unsigned_bits() <==> a.magnitude() == b.magnitude(),
{
    if a.unsigned_bits() < b.unsigned_bits() {
        lemma_magnitude_increases(a, b);
    } else if b.unsigned_bits() < a.unsigned_bits() {
        lemma_magnitude_increases(b, a);
    } else {
        assert(a.exponent() == b.exponent() && a.fraction() == b.fraction());
    }
}

proof fn lemma_magnitude_increases(a: Binary64, b: Binary64)
    requires
        a.unsigned_bits() < b.unsigned_bits(),
    ensures
        a.magnitude() < b.magnitude(),
{
    let (ea, fa) = (a.exponent(), a.fraction());
    let (eb, fb) = (b.exponent(), b.fraction());
    assert(0 <= fa < FRACTIONS && 0 <= fb < FRACTIONS && 0 <= ea && 0 <= eb);
    assert(ea < eb || (ea == eb && fa < fb));
    if ea == eb {
        if ea > 0 {
            let p = pow2((ea - 1) as nat) as int;
            lemma_pow2_pos((ea - 1) as nat);
            assert((FRACTIONS + fa) * p < (FRACTIONS + fb) * p) by (nonlinear_arith)
                requires
                    fa < fb,
                    p > 0,
            ;
        }
    } else {
        let q = pow2((eb - 1) as nat) as int;
        lemma_pow2_pos((eb - 1) as nat);
        assert((FRACTIONS + fb) * q >= FRACTIONS * q) by (nonlinear_arith)
            requires
                fb >= 0,
                q > 0,
        ;
        if ea == 0 {
            assert(FRACTIONS * q >= FRACTIONS) by (nonlinear_arith)
                requires
                    q > 0,
            ;
        } else {
            let p = pow2((ea - 1) as nat) as int;
            lemma_pow2_pos((ea - 1) as nat);
            lemma_pow2_adds((ea - 1) as nat, 1);
            assert(pow2(1) == 2) by {
                vstd::arithmetic::power2::lemma2_to64();
            }
            if ea < eb - 1 {
                lemma_pow2_strictly_increases(ea as nat, (eb - 1) as nat);
            }
            assert(2 * p <= q);
            assert((FRACTIONS + fa) * p < FRACTIONS * q) by (nonlinear_arith)
                requires
                    0 <= fa < FRACTIONS,
                    p > 0,
                    2 * p <= q,
            ;
        }
    }
}

/// The named patterns stand for the numbers that they are named after.
pub proof fn lemma_named_patterns()
    ensures
        (Binary64 { bits: ZERO_BITS }).units() == 0,
        (Binary64 { bits: ONE_BITS }).units() == one(),
        (Binary64 { bits: TEN_BITS }).units() == 10 * one(),
        (Binary64 { bits: HUNDRED_BITS }).units() == 100 * one(),
{
    lemma_pow2_adds(52, 1022);
    lemma_pow2_adds(49, 1025);
    lemma_pow2_adds(46, 1028);
    vstd::arithmetic::power2::lemma2_to64_rest();
    let (a, b, c) = (pow2(1022) as int, pow2(1025) as int, pow2(1028) as int);
    assert(one() == FRACTIONS * a);
    assert(one() == 0x2_0000_0000_0000 * b);
    assert(one() == 0x4000_0000_0000 * c);
    assert((Binary64 { bits: ONE_BITS }).exponent() == 1023);
    assert((Binary64 { bits: TEN_BITS }).exponent() == 1026);
    assert((Binary64 { bits: HUNDRED_BITS }).exponent() == 1029);
    assert((Binary64 { bits: TEN_BITS }).fraction() == 0x4_0000_0000_0000);
    assert((Binary64 { bits: HUNDRED_BITS }).fraction() == 0x9_0000_0000_0000);
    assert((FRACTIONS + 0x4_0000_0000_0000) * b == 10 * (0x2_0000_0000_0000 * b));
    assert((FRACTIONS + 0x9_0000_0000_0000) * c == 100 * (0x4000_0000_0000 * c));
}

/// Two to the power of `k`.
pub(crate) fn power_of_two(k: u64) -> (power: u128)
    requires
        k <= 66,
    ensures
        power == pow2(k as nat),
{
    let mut power: u128 = 1;
    let mut i: u64 = 0;
    proof {
        vstd::arithmetic::power2::lemma2_to64();
    }
    while i < k
        invariant
            i <= k <= 66,
            power == pow2(i as nat),
        decreases k - i,
    {
        proof {
            vstd::arithmetic::power2::lemma2_to64();
            lemma_pow2_adds(i as nat, 1);
            lemma_pow2_adds(64, 2);
            if i + 1 < 66 {
                lemma_pow2_strictly_increases((i + 1) as nat, 66);
            }
        }
        power = power * 2;
        i += 1;
    }
    power
}

impl Quotient {
    spec fn of(self, number: int, divisor: int) -> bool {
        match self {
            Quotient::Exact(q) => number == q * divisor,
            Quotient::Inexact(q) => q * divisor < number < (q + 1) * divisor,
            Quotient::Beyond => number >= 0x4_0000_0000_0000_0000 * divisor,
        }
    }
}

impl Binary64 {
    pub(crate) fn exponent_of(&self) -> (exponent: u64)
        ensures
            exponent == self.exponent(),
            exponent <= 2047,
    {
        self.bits % SIGN / FRACTIONS
    }

    pub(crate) fn fraction_of(&self) -> (fraction: u64)
        ensures
            fraction == self.fraction(),
            fraction < FRACTIONS,
    {
        self.bits % SIGN % FRACTIONS
    }

    /// Whether the pattern stands for no number.
    pub fn is_not_a_number(&self) -> (nan: bool)
        ensures
            nan == self.is_nan(),
    {
        self.exponent_of() == 2047 && self.fraction_of() != 0
    }

    /// Whether the value is above another one.
    pub fn greater_than(&self, other: &Binary64) -> (greater: bool)
        ensures
            greater == self.above(*other),
    {
        proof {
            lemma_magnitude_is_monotone(*self, *other);
            let zero = Binary64 { bits: ZERO_BITS };
            lemma_magnitude_is_monotone(zero, *self);
            lemma_magnitude_is_monotone(zero, *other);
            assert(zero.magnitude() == 0);
        }
        if self.is_not_a_number() || other.is_not_a_number() {
            return false;
        }
        let a = self.bits % SIGN;
        let b = other.bits % SIGN;
        if self.bits < SIGN {
            if other.bits < SIGN {
                a > b
            } else {
                a > 0 || b > 0
            }
        } else {
            other.bits >= SIGN && a < b
        }
    }

    /// The larger of two values, or the one that is a number.
    pub fn max(self, other: Binary64) -> (larger: Binary64)
        ensures
            larger == self.larger(other),
    {
        if self.is_not_a_number() || other.greater_than(&self) {
            other
        } else {
            self
        }
    }

    /// The absolute value divided by two to the power of `k - 1074`.
    fn divided(&self, k: u64) -> (quotient: Quotient)
        requires
            1000 <= k <= 1074,
        ensures
            quotient.of(self.magnitude(), pow2(k as nat) as int),
    {
        let exponent = self.exponent_of();
        let fraction = self.fraction_of();
        let ghost divisor = pow2(k as nat) as int;
        proof {
            lemma_pow2_pos(k as nat);
        }
        if exponent == 0 {
            proof {
                lemma_pow2_strictly_increases(52, k as nat);
                vstd::arithmetic::power2::lemma2_to64_rest();
                assert(0 * divisor == 0 && (0 + 1) * divisor == divisor) by (nonlinear_arith);
            }
            if fraction == 0 {
                Quotient::Exact(0)
            } else {
                Quotient::Inexact(0)
            }
        } else {
            let significand = FRACTIONS + fraction;
            let ghost scale = pow2((exponent - 1) as nat) as int;
            if exponent - 1 >= k {
                let shift = exponent - 1 - k;
                proof {
                    lemma_pow2_adds(shift as nat, k as nat);
                    lemma_pow2_pos(shift as nat);
                }
                let ghost up = pow2(shift as nat) as int;
                if shift > 66 {
                    proof {
                        lemma_pow2_strictly_increases(66, shift as nat);
                        lemma_pow2_adds(64, 2);
                        vstd::arithmetic::power2::lemma2_to64();
                        assert(significand * (up * divisor) >= 0x4_0000_0000_0000_0000 * divisor)
                            by (nonlinear_arith)
                            requires
                                significand >= 1,
                                up >= 0x4_0000_0000_0000_0000,
                                divisor > 0,
                        ;
                    }
                    Quotient::Beyond
                } else {
                    let factor = power_of_two(shift);
                    proof {
                        if shift < 66 {
                            lemma_pow2_strictly_increases(shift as nat, 66);
                        }
                        lemma_pow2_adds(64, 2);
                        vstd::arithmetic::power2::lemma2_to64();
                        assert(significand * factor <= 0x20_0000_0000_0000
                            * 0x4_0000_0000_0000_0000) by (nonlinear_arith)
                            requires
                                significand <= 0x20_0000_0000_0000,
                                factor <= 0x4_0000_0000_0000_0000,
                        ;
                        assert(significand * (up * divisor) == (significand * up) * divisor)
                            by (nonlinear_arith);
                    }
                    Quotient::Exact(significand as u128 * factor)
                }
            } else {
                let shift = k - (exponent - 1);
                proof {
                    lemma_pow2_adds(shift as nat, (exponent - 1) as nat);
                    lemma_pow2_pos((exponent - 1) as nat);
                }
                let ghost down = pow2(shift as nat) as int;
                if shift >= 53 {
                    proof {
                        if shift > 53 {
                            lemma_pow2_strictly_increases(53, shift as nat);
                        }
                        vstd::arithmetic::power2::lemma2_to64_rest();
                        assert(0 < significand * scale < (0 + 1) * (down * scale)) by (nonlinear_arith)
                            requires
                                0 < significand < down,
                                scale > 0,
                        ;
                        assert(0 * divisor == 0) by (nonlinear_arith);
                    }
                    Quotient::Inexact(0)
                } else {
                    let factor = power_of_two(shift);
                    proof {
                        lemma_pow2_pos(shift as nat);
                    }
                    let quotient = significand as u128 / factor;
                    let remainder = significand as u128 % factor;
                    proof {
                        let (s, q, r, d) = (
                            significand as int,
                            quotient as int,
                            remainder as int,
                            factor as int,
                        );
                        assert(s == q * d + r && 0 <= r < d) by (nonlinear_arith)
                            requires
                                d > 0,
                                q == s / d,
                                r == s % d,
                        ;
                        assert(r == 0 ==> s * scale == q * (d * scale)) by (nonlinear_arith)
                            requires
                                s == q * d + r,
                        ;
                        assert(r > 0 ==> q * (d * scale) < s * scale < (q + 1) * (d * scale))
                            by (nonlinear_arith)
                            requires
                                s == q * d + r,
                                r < d,
                                scale > 0,
                        ;
                    }
                    if remainder == 0 {
                        Quotient::Exact(quotient)
                    } else {
                        Quotient::Inexact(quotient)
                    }
                }
            }
        }
    }
}

impl Binary64 {
    /// The value without its fractional part, brought into the range of `u64`.
    pub fn to_u64(&self) -> (whole: u64)
        ensures
            whole == self.truncated(),
    {
        proof {
            lemma_pow2_pos(1074);
        }
        let ghost divisor = one() as int;
        if self.is_not_a_number() || self.bits >= SIGN {
            proof {
                lemma_magnitude_is_monotone(Binary64 { bits: ZERO_BITS }, *self);
            }
            return 0;
        }
        let whole: u128 = match self.divided(1074) {
            Quotient::Exact(q) => q,
            Quotient::Inexact(q) => q,
            Quotient::Beyond => {
                return u64::MAX;
            },
        };
        proof {
            lemma_multiples(whole as int, whole + 1, divisor);
            lemma_whole_part(self.magnitude(), whole as int, divisor);
        }
        if whole <= 0xFFFF_FFFF_FFFF_FFFF {
            whole as u64
        } else {
            u64::MAX
        }
    }

    /// Where the value lies as seen from a whole number.
    pub fn side_of(&self, whole: u64) -> (side: Side)
        requires
            !self.is_nan(),
        ensures
            side == self.side(whole as int),
    {
        proof {
            lemma_pow2_pos(1073);
            let zero = Binary64 { bits: ZERO_BITS };
            lemma_magnitude_is_monotone(zero, *self);
            assert(zero.magnitude() == 0);
            lemma_halves();
            lemma_multiples(whole as int, 0, one() as int);
        }
        let twice: u128 = 2 * (whole as u128);
        let ghost half = pow2(1073) as int;
        if self.bits >= SIGN {
            if whole == 0 && self.bits == SIGN {
                Side::At
            } else {
                Side::Before
            }
        } else {
            assert(whole * one() == twice * half) by (nonlinear_arith)
                requires
                    one() == 2 * half,
                    twice == 2 * whole,
            ;
            match self.divided(1073) {
                Quotient::Exact(h) => {
                    proof {
                        lemma_multiples(h as int, twice as int, half);
                    }
                    if h < twice {
                        Side::Before
                    } else if h == twice {
                        Side::At
                    } else {
                        Side::After
                    }
                },
                Quotient::Inexact(h) => {
                    proof {
                        lemma_multiples(h as int, twice as int, half);
                        lemma_multiples(h + 1, twice as int, half);
                    }
                    if h < twice {
                        Side::Before
                    } else {
                        Side::After
                    }
                },
                Quotient::Beyond => {
                    proof {
                        lemma_multiples(0x4_0000_0000_0000_0000, twice as int, half);
                    }
                    Side::After
                },
            }
        }
    }

    /// Whether the value is no larger than half of a whole number.
    pub fn at_most_half(&self, whole: u128) -> (at_most: bool)
        requires
            !self.is_nan(),
            whole < 0x4_0000_0000_0000_0000,
        ensures
            at_most == (2 * self.units() <= whole * one()),
    {
        proof {
            lemma_pow2_pos(1073);
            lemma_magnitude_is_monotone(Binary64 { bits: ZERO_BITS }, *self);
            lemma_halves();
        }
        let ghost half = pow2(1073) as int;
        assert(whole * one() == 2 * (whole * half)) by (nonlinear_arith)
            requires
                one() == 2 * half,
        ;
        if self.bits >= SIGN {
            assert(whole * half >= 0) by (nonlinear_arith)
                requires
                    half > 0,
            ;
            true
        } else {
            match self.divided(1073) {
                Quotient::Exact(h) => {
                    proof {
                        lemma_multiples(h as int, whole as int, half);
                    }
                    h <= whole
                },
                Quotient::Inexact(h) => {
                    proof {
                        lemma_multiples(h as int, whole as int, half);
                        lemma_multiples(h + 1, whole as int, half);
                    }
                    h < whole
                },
                Quotient::Beyond => {
                    proof {
                        lemma_multiples(0x4_0000_0000_0000_0000, whole as int, half);
                    }
                    false
                },
            }
        }
    }
}

proof fn lemma_halves()
    ensures
        one() == 2 * pow2(1073),
        one() > 0,
{
    lemma_pow2_adds(1073, 1);
    vstd::arithmetic::power2::lemma2_to64();
    lemma_pow2_pos(1074);
}

/// Multiples of a positive number are ordered as their factors.
pub(crate) proof fn lemma_multiples(a: int, b: int, divisor: int)
    requires
        divisor > 0,
    ensures
        a < b <==> a * divisor < b * divisor,
        a == b <==> a * divisor == b * divisor,
{
    assert(a < b ==> a * divisor < b * divisor) by (nonlinear_arith)
        requires
            divisor > 0,
    ;
    assert(a > b ==> a * divisor > b * divisor) by (nonlinear_arith)
        requires
            divisor > 0,
    ;
}

proof fn lemma_whole_part(number: int, quotient: int, divisor: int)
    requires
        divisor > 0,
        quotient >= 0,
        quotient * divisor <= number < (quotient + 1) * divisor,
    ensures
        number / divisor == quotient,
        number >= divisor * 0x1_0000_0000_0000_0000 <==> quotient >= 0x1_0000_0000_0000_0000,
        number <= 0 ==> quotient == 0,
{
    assert((quotient + 1) * divisor == quotient * divisor + divisor) by (nonlinear_arith);
    vstd::arithmetic::div_mod::lemma_fundamental_div_mod_converse(
        number,
        divisor,
        quotient,
        number - quotient * divisor,
    );
    lemma_multiples(quotient, 0x1_0000_0000_0000_0000, divisor);
    lemma_multiples(quotient + 1, 0x1_0000_0000_0000_0000, divisor);
    lemma_multiples(quotient, 0, divisor);
}

} // verus!
