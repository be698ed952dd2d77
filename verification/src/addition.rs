//! Addition of binary64 values, rounded to the nearest value.
use crate::binary64::{lemma_magnitude_is_monotone, power_of_two, Binary64, FRACTIONS, SIGN};
use vstd::arithmetic::power2::{
    lemma2_to64, lemma_pow2_adds, lemma_pow2_pos, lemma_pow2_strictly_increases, pow2,
};
use vstd::prelude::*;

verus! {

/// The pattern of infinity.
pub const INFINITY_BITS: u64 = 0x7FF0_0000_0000_0000;

/// The pattern that stands for every result that is no number.
pub const NAN_BITS: u64 = 0x7FF8_0000_0000_0000;

impl Binary64 {
    pub open spec fn is_infinite(self) -> bool {
        self.exponent() == 2047 && self.fraction() == 0
    }

    /// How far the value is from a number, both counted in the smallest positive value.
    pub open spec fn distance(self, number: int) -> int {
        if self.units() <= number {
            number - self.units()
        } else {
            self.units() - number
        }
    }

    /// Whether no value is closer to a number, and where another one is as close, whether the
    /// pattern of this one is even. Infinity takes part as the value above the largest one.
    pub open spec fn is_nearest(self, number: int) -> bool {
        &&& !self.is_nan()
        &&& forall|other: Binary64|
            !other.is_nan() && other.units() != self.units() ==> {
                ||| self.distance(number) < #[trigger] other.distance(number)
                ||| self.distance(number) == other.distance(number) && self.bits % 2 == 0
            }
    }

    /// Whether the value is the sum of two values.
    pub open spec fn is_sum(self, a: Binary64, b: Binary64) -> bool {
        if a.is_nan() || b.is_nan() {
            self.bits == NAN_BITS
        } else if a.is_infinite() {
            if b.is_infinite() && a.negative() != b.negative() {
                self.bits == NAN_BITS
            } else {
                self == a
            }
        } else if b.is_infinite() {
            self == b
        } else if a.units() + b.units() == 0 {
            self.bits == if a.negative() && b.negative() {
                SIGN
            } else {
                0
            }
        } else {
            self.is_nearest(a.units() + b.units())
        }
    }

    /// The sum of two values. Every result that is no number is given by one pattern.
    pub open spec fn sum(self, other: Binary64) -> Binary64 {
        choose|result: Binary64| result.is_sum(self, other)
    }
}

/// A pattern is made of its exponent and its significand.
proof fn lemma_pattern(value: Binary64, significand: int, scale: int)
    requires
        0 <= scale,
        0 <= significand < 2 * FRACTIONS,
        scale == 0 || significand >= FRACTIONS,
        value.unsigned_bits() == scale * FRACTIONS + significand,
    ensures
        value.magnitude() == significand * pow2(scale as nat),
{
    let n = value.unsigned_bits();
    if significand < FRACTIONS {
        assert(value.exponent() == 0 && value.fraction() == significand);
        lemma2_to64();
    } else {
        assert(n == (scale + 1) * FRACTIONS + (significand - FRACTIONS)) by (nonlinear_arith)
            requires
                n == scale * FRACTIONS + significand,
        ;
        vstd::arithmetic::div_mod::lemma_fundamental_div_mod_converse(
            n,
            FRACTIONS as int,
            scale + 1,
            significand - FRACTIONS,
        );
    }
}

/// The pattern that follows stands for the next significand.
proof fn lemma_next_pattern(value: Binary64, significand: int, scale: int)
    requires
        0 <= scale,
        0 <= significand < 2 * FRACTIONS,
        scale == 0 || significand >= FRACTIONS,
        value.unsigned_bits() == scale * FRACTIONS + significand + 1,
    ensures
        value.magnitude() == (significand + 1) * pow2(scale as nat),
{
    if significand + 1 < 2 * FRACTIONS {
        lemma_pattern(value, significand + 1, scale);
    } else {
        assert(value.unsigned_bits() == (scale + 1) * FRACTIONS + FRACTIONS) by (nonlinear_arith)
            requires
                value.unsigned_bits() == scale * FRACTIONS + significand + 1,
                significand + 1 == 2 * FRACTIONS,
        ;
        lemma_pattern(value, FRACTIONS as int, scale + 1);
        lemma_pow2_adds(scale as nat, 1);
        lemma2_to64();
        let p = pow2(scale as nat) as int;
        assert(FRACTIONS * (p * 2) == (2 * FRACTIONS) * p) by (nonlinear_arith);
    }
}

/// Of two neighbours, the one that is closer to a number between them is the nearest value.
proof fn lemma_nearest(low: Binary64, high: Binary64, number: int, up: bool, result: Binary64)
    requires
        high.bits < SIGN,
        high.bits == low.bits + 1,
        !high.is_nan(),
        low.magnitude() <= number < high.magnitude(),
        result.unsigned_bits() == if up {
            high.bits
        } else {
            low.bits
        },
        up ==> {
            ||| high.magnitude() - number < number - low.magnitude()
            ||| high.magnitude() - number == number - low.magnitude() && high.bits % 2 == 0
        },
        !up ==> {
            ||| number - low.magnitude() < high.magnitude() - number
            ||| number - low.magnitude() == high.magnitude() - number && low.bits % 2 == 0
        },
    ensures
        result.is_nearest(
            if result.negative() {
                -number
            } else {
                number
            },
        ),
{
    let goal = if result.negative() {
        -number
    } else {
        number
    };
    let zero = Binary64 { bits: 0 };
    lemma_magnitude_is_monotone(zero, low);
    assert(zero.magnitude() == 0);
    lemma_magnitude_is_monotone(result, low);
    lemma_magnitude_is_monotone(result, high);
    assert(!result.is_nan());
    assert(result.bits % 2 == result.unsigned_bits() % 2);
    assert forall|other: Binary64|
        !other.is_nan() && other.units() != result.units() implies result.distance(goal)
        < #[trigger] other.distance(goal) || (result.distance(goal) == other.distance(goal)
        && result.bits % 2 == 0) by {
        lemma_magnitude_is_monotone(other, low);
        lemma_magnitude_is_monotone(other, high);
        lemma_magnitude_is_monotone(zero, other);
    }
}

/// There is one nearest value to a number other than zero.
proof fn lemma_nearest_is_unique(a: Binary64, b: Binary64, number: int)
    requires
        a.is_nearest(number),
        b.is_nearest(number),
        number != 0,
    ensures
        a == b,
{
    let zero = Binary64 { bits: 0 };
    let least = Binary64 { bits: 1 };
    let opposite = Binary64 { bits: (SIGN + 1) as u64 };
    assert(zero.units() == 0 && least.units() == 1 && opposite.units() == -1);
    assert(!zero.is_nan() && !least.is_nan() && !opposite.is_nan());
    assert(least.distance(number) >= 0 && opposite.distance(number) >= 0 && zero.distance(number)
        >= 0);
    lemma_magnitude_is_monotone(zero, a);
    lemma_magnitude_is_monotone(zero, b);
    lemma_magnitude_is_monotone(a, b);
    assert(a.distance(number) >= 0 && b.distance(number) >= 0);
    assert(a.units() != 0);
    assert(b.units() != 0);
    if a.units() != b.units() {
        assert(a.distance(number) == b.distance(number));
        assert(a.bits % 2 == 0 && b.bits % 2 == 0);
        if a.negative() != b.negative() {
            assert(zero.distance(number) < a.distance(number));
        } else {
            // A pattern between the two is closer to the number than either.
            let step = if a.unsigned_bits() < b.unsigned_bits() {
                a
            } else {
                b
            };
            let far = if a.unsigned_bits() < b.unsigned_bits() {
                b
            } else {
                a
            };
            assert(far.unsigned_bits() > step.unsigned_bits() + 1);
            let between = Binary64 { bits: (step.bits + 1) as u64 };
            assert(between.unsigned_bits() == step.unsigned_bits() + 1);
            assert(between.negative() == step.negative());
            lemma_magnitude_is_monotone(step, between);
            lemma_magnitude_is_monotone(between, far);
            assert(!between.is_nan());
            assert(between.distance(number) < step.distance(number));
        }
    }
    assert(a.magnitude() == b.magnitude());
}

/// Two values have one sum.
pub proof fn lemma_sum_is_unique(x: Binary64, y: Binary64, a: Binary64, b: Binary64)
    requires
        x.is_sum(a, b),
        y.is_sum(a, b),
    ensures
        x == y,
{
    if !a.is_nan() && !b.is_nan() && !a.is_infinite() && !b.is_infinite() && a.units() + b.units()
        != 0 {
        lemma_nearest_is_unique(x, y, a.units() + b.units());
    }
}

/// A sum of finite values that some value stands for exactly is not rounded.
pub proof fn law_exact_sum_is_kept(sum: Binary64, a: Binary64, b: Binary64, exact: Binary64)
    requires
        sum.is_sum(a, b),
        !a.is_nan() && !a.is_infinite(),
        !b.is_nan() && !b.is_infinite(),
        !exact.is_nan(),
        exact.units() == a.units() + b.units(),
    ensures
        sum.units() == a.units() + b.units(),
{
    let number = a.units() + b.units();
    if number == 0 {
        assert((Binary64 { bits: 0 }).units() == 0);
        assert((Binary64 { bits: SIGN }).units() == 0);
    } else if sum.units() != exact.units() {
        assert(exact.distance(number) == 0);
        assert(sum.distance(number) > 0);
    }
}

/// The order of two values makes no difference to their sum.
pub proof fn law_sum_is_commutative(sum: Binary64, a: Binary64, b: Binary64)
    ensures
        sum.is_sum(a, b) == sum.is_sum(b, a),
{
    if a.is_infinite() && b.is_infinite() && a.negative() == b.negative() {
        assert(a.unsigned_bits() == b.unsigned_bits());
        assert(a.bits == b.bits);
    }
}

/// Infinity is the nearest value to every number that is at least as large.
proof fn lemma_infinity_is_nearest(result: Binary64, number: int)
    requires
        result.unsigned_bits() == INFINITY_BITS,
        number >= result.magnitude(),
    ensures
        result.is_nearest(
            if result.negative() {
                -number
            } else {
                number
            },
        ),
{
    let goal = if result.negative() {
        -number
    } else {
        number
    };
    let zero = Binary64 { bits: 0 };
    assert(zero.magnitude() == 0);
    lemma_magnitude_is_monotone(zero, result);
    assert(!result.is_nan());
    assert forall|other: Binary64|
        !other.is_nan() && other.units() != result.units() implies result.distance(goal)
        < #[trigger] other.distance(goal) || (result.distance(goal) == other.distance(goal)
        && result.bits % 2 == 0) by {
        assert(other.unsigned_bits() <= INFINITY_BITS);
        lemma_magnitude_is_monotone(other, result);
        lemma_magnitude_is_monotone(zero, other);
    }
}

/// A value is the nearest one to its sum with a value that is far smaller.
proof fn lemma_far_sum(
    large: Binary64,
    small: Binary64,
    significand: int,
    scale: int,
    small_significand: int,
    small_scale: int,
)
    requires
        large.exponent() <= 2046,
        FRACTIONS <= significand < 2 * FRACTIONS,
        large.unsigned_bits() == scale * FRACTIONS + significand,
        0 <= small_scale,
        small_scale + 67 <= scale,
        0 <= small_significand < 2 * FRACTIONS,
        small.magnitude() == small_significand * pow2(small_scale as nat),
    ensures
        large.units() + small.units() != 0,
        large.is_nearest(large.units() + small.units()),
{
    let goal = large.units() + small.units();
    let p = pow2(scale as nat) as int;
    let s = pow2(small_scale as nat) as int;
    let half = pow2((scale - 1) as nat) as int;
    let n = large.unsigned_bits();
    lemma_pattern(large, significand, scale);
    lemma_pow2_pos(small_scale as nat);
    lemma_pow2_pos((scale - 1) as nat);
    lemma_pow2_adds((scale - 1) as nat, 1);
    lemma2_to64();
    lemma_pow2_adds(small_scale as nat, (scale - small_scale) as nat);
    lemma_pow2_adds(64, 3);
    if scale - small_scale > 67 {
        lemma_pow2_strictly_increases(67, (scale - small_scale) as nat);
    }
    let ratio = pow2((scale - small_scale) as nat) as int;
    assert(4 * small.magnitude() < p) by (nonlinear_arith)
        requires
            small.magnitude() == small_significand * s,
            0 <= small_significand < 0x20_0000_0000_0000,
            s > 0,
            p == s * ratio,
            ratio >= 0x8_0000_0000_0000_0000,
    ;
    assert(significand * p >= FRACTIONS * p) by (nonlinear_arith)
        requires
            significand >= FRACTIONS,
            p > 0,
    ;
    let below = Binary64 { bits: (n - 1) as u64 };
    let above = Binary64 { bits: (n + 1) as u64 };
    assert(large.unsigned_bits() < INFINITY_BITS);
    assert(below.unsigned_bits() == n - 1);
    assert(above.unsigned_bits() == n + 1);
    lemma_next_pattern(above, significand, scale);
    assert((significand + 1) * p == significand * p + p) by (nonlinear_arith);
    if significand > FRACTIONS {
        lemma_pattern(below, significand - 1, scale);
        assert((significand - 1) * p == significand * p - p) by (nonlinear_arith);
    } else {
        assert(n - 1 == (scale - 1) * FRACTIONS + (2 * FRACTIONS - 1)) by (nonlinear_arith)
            requires
                n == scale * FRACTIONS + FRACTIONS,
        ;
        lemma_pattern(below, 2 * FRACTIONS - 1, scale - 1);
        assert((2 * FRACTIONS - 1) * half == FRACTIONS * (2 * half) - half) by (nonlinear_arith);
    }
    assert(below.magnitude() <= large.magnitude() - half);
    assert(above.magnitude() == large.magnitude() + p);
    let zero = Binary64 { bits: 0 };
    assert(zero.magnitude() == 0);
    lemma_magnitude_is_monotone(zero, small);
    assert forall|other: Binary64|
        !other.is_nan() && other.units() != large.units() implies large.distance(goal)
        < #[trigger] other.distance(goal) || (large.distance(goal) == other.distance(goal)
        && large.bits % 2 == 0) by {
        lemma_magnitude_is_monotone(other, large);
        lemma_magnitude_is_monotone(other, below);
        lemma_magnitude_is_monotone(other, above);
        lemma_magnitude_is_monotone(zero, other);
    }
}

/// The pattern with a given sign.
fn signed(unsigned_bits: u64, negative: bool) -> (value: Binary64)
    requires
        unsigned_bits < SIGN,
    ensures
        value.unsigned_bits() == unsigned_bits,
        value.negative() == negative,
{
    if negative {
        Binary64 { bits: unsigned_bits + SIGN }
    } else {
        Binary64 { bits: unsigned_bits }
    }
}

/// The value nearest to a number, given as a multiple of a power of two and a sign.
fn rounded(number: u128, scale: u64, negative: bool) -> (value: Binary64)
    requires
        0 < number < 0x200_0000_0000_0000_0000_0000_0000_0000,
        scale <= 2045,
    ensures
        value.is_nearest(
            if negative {
                -(number * pow2(scale as nat))
            } else {
                number * pow2(scale as nat)
            },
        ),
{
    let ghost exact = number * pow2(scale as nat);
    let mut power: u128 = 1;
    let mut dropped: u64 = 0;
    proof {
        lemma2_to64();
    }
    while number / power >= 0x20_0000_0000_0000
        invariant
            0 < number < 0x200_0000_0000_0000_0000_0000_0000_0000,
            0 < power <= number,
            power == pow2(dropped as nat),
            dropped <= 68,
            dropped > 0 ==> number >= 0x10_0000_0000_0000 * power,
        decreases number - power,
    {
        proof {
            let (n, p) = (number as int, power as int);
            assert(n >= 0x20_0000_0000_0000 * p) by (nonlinear_arith)
                requires
                    n / p >= 0x20_0000_0000_0000,
                    p > 0,
                    n > 0,
            ;
            lemma_pow2_adds(64, 4);
            lemma_pow2_adds(dropped as nat, 1);
            lemma2_to64();
            if dropped == 68 {
                assert(false);
            }
        }
        power = power * 2;
        dropped += 1;
    }
    let mut quotient: u64 = (number / power) as u64;
    let remainder: u128 = number % power;
    let ghost unit = pow2(scale as nat) as int;
    proof {
        let (n, p, q, r) = (number as int, power as int, quotient as int, remainder as int);
        assert(n == q * p + r && 0 <= r < p) by (nonlinear_arith)
            requires
                p > 0,
                q == n / p,
                r == n % p,
        ;
        lemma_pow2_adds(dropped as nat, scale as nat);
        lemma_pow2_pos(scale as nat);
        assert(exact == q * (p * unit) + r * unit) by (nonlinear_arith)
            requires
                exact == n * unit,
                n == q * p + r,
        ;
    }
    if dropped == 0 {
        let mut exponent: u64 = scale;
        proof {
            assert(quotient * (1 * unit) + 0 * unit == quotient * unit) by (nonlinear_arith);
        }
        while quotient < FRACTIONS && exponent > 0
            invariant
                quotient < 2 * FRACTIONS,
                exponent <= scale <= 2045,
                exact == quotient * pow2(exponent as nat),
            decreases exponent,
        {
            proof {
                lemma_pow2_adds((exponent - 1) as nat, 1);
                lemma2_to64();
                let h = pow2((exponent - 1) as nat) as int;
                assert(quotient * (h * 2) == (quotient * 2) * h) by (nonlinear_arith);
            }
            quotient = quotient * 2;
            exponent -= 1;
        }
        let pattern: u64 = exponent * FRACTIONS + quotient;
        let value = signed(pattern, negative);
        proof {
            let low = Binary64 { bits: pattern };
            let high = Binary64 { bits: (pattern + 1) as u64 };
            lemma_pattern(low, quotient as int, exponent as int);
            lemma_magnitude_is_monotone(low, high);
            lemma_nearest(low, high, exact, false, value);
        }
        value
    } else {
        let exponent: u64 = scale + dropped;
        proof {
            assert(number / power >= 0x10_0000_0000_0000) by (nonlinear_arith)
                requires
                    number >= 0x10_0000_0000_0000 * power,
                    power > 0,
            ;
        }
        let ghost step = pow2(exponent as nat) as int;
        if exponent >= 2046 {
            let value = signed(INFINITY_BITS, negative);
            proof {
                assert(INFINITY_BITS == 2046 * FRACTIONS + FRACTIONS);
                lemma_pattern(value, FRACTIONS as int, 2046);
                if exponent > 2046 {
                    lemma_pow2_strictly_increases(2046, exponent as nat);
                }
                assert(quotient * step >= FRACTIONS * pow2(2046)) by (nonlinear_arith)
                    requires
                        quotient >= FRACTIONS,
                        step >= pow2(2046),
                ;
                assert(remainder * unit >= 0) by (nonlinear_arith)
                    requires
                        unit > 0,
                ;
                lemma_infinity_is_nearest(value, exact);
            }
            value
        } else {
            let pattern: u64 = exponent * FRACTIONS + quotient;
            let up: bool = 2 * remainder > power || (2 * remainder == power && quotient % 2 == 1);
            let value = signed(
                if up {
                    pattern + 1
                } else {
                    pattern
                },
                negative,
            );
            proof {
                let low = Binary64 { bits: pattern };
                let high = Binary64 { bits: (pattern + 1) as u64 };
                lemma_pattern(low, quotient as int, exponent as int);
                lemma_next_pattern(high, quotient as int, exponent as int);
                let (p, q, r) = (power as int, quotient as int, remainder as int);
                assert((q + 1) * step == q * step + step) by (nonlinear_arith);
                assert(0 <= r * unit < p * unit) by (nonlinear_arith)
                    requires
                        0 <= r < p,
                        unit > 0,
                ;
                assert(2 * r > p ==> 2 * (r * unit) > p * unit) by (nonlinear_arith)
                    requires
                        unit > 0,
                ;
                assert(2 * r < p ==> 2 * (r * unit) < p * unit) by (nonlinear_arith)
                    requires
                        unit > 0,
                ;
                assert(2 * r == p ==> 2 * (r * unit) == p * unit) by (nonlinear_arith);
                assert(pattern % 2 == quotient % 2);
                lemma_nearest(low, high, exact, up, value);
            }
            value
        }
    }
}

impl Binary64 {
    /// The factor that the value multiplies a power of two with.
    fn significand_of(&self) -> (significand: u64)
        ensures
            significand < 2 * FRACTIONS,
            self.exponent() > 0 ==> significand >= FRACTIONS,
            significand == if self.exponent() == 0 {
                self.fraction()
            } else {
                FRACTIONS + self.fraction()
            },
    {
        if self.exponent_of() == 0 {
            self.fraction_of()
        } else {
            FRACTIONS + self.fraction_of()
        }
    }

    /// The power of two that the value is a multiple of.
    fn scale_of(&self) -> (scale: u64)
        ensures
            scale == if self.exponent() == 0 {
                0
            } else {
                self.exponent() - 1
            },
            scale <= 2046,
    {
        let exponent = self.exponent_of();
        if exponent == 0 {
            0
        } else {
            exponent - 1
        }
    }
}

/// The sum of two finite values, the first of which has the larger scale.
fn finite_sum(large: Binary64, small: Binary64) -> (sum: Binary64)
    requires
        large.exponent() <= 2046,
        small.exponent() <= 2046,
        large.exponent() >= small.exponent(),
    ensures
        sum.is_sum(large, small),
{
    let a = large.significand_of();
    let b = small.significand_of();
    let scale = small.scale_of();
    let shift: u64 = large.scale_of() - scale;
    let ghost unit = pow2(scale as nat) as int;
    let ghost exact = large.units() + small.units();
    proof {
        lemma2_to64();
        assert(b * 1 == b && a * 1 == a) by (nonlinear_arith);
        assert(small.magnitude() == b * unit);
        if large.exponent() == 0 {
            assert(scale + shift == 0);
        } else {
            assert(scale + shift == large.exponent() - 1);
        }
        assert(large.magnitude() == a * pow2((scale + shift) as nat));
        lemma_pow2_adds(shift as nat, scale as nat);
        lemma_pow2_pos(scale as nat);
        lemma_pow2_pos(shift as nat);
    }
    if shift > 66 {
        proof {
            let n = large.unsigned_bits();
            let e = large.exponent();
            assert(n == e * FRACTIONS + large.fraction()) by {
                vstd::arithmetic::div_mod::lemma_fundamental_div_mod(n, FRACTIONS as int);
            }
            assert(n == (e - 1) * FRACTIONS + (FRACTIONS + large.fraction())) by (nonlinear_arith)
                requires
                    n == e * FRACTIONS + large.fraction(),
            ;
            lemma_far_sum(large, small, a as int, scale + shift, b as int, scale as int);
        }
        return large;
    }
    let factor = power_of_two(shift);
    proof {
        if shift < 66 {
            lemma_pow2_strictly_increases(shift as nat, 66);
        }
        lemma_pow2_adds(64, 2);
        assert(0 <= a * factor <= 0x20_0000_0000_0000 * 0x4_0000_0000_0000_0000)
            by (nonlinear_arith)
            requires
                a <= 0x20_0000_0000_0000,
                factor <= 0x4_0000_0000_0000_0000,
        ;
        assert(a * (factor * unit) == (a * factor) * unit) by (nonlinear_arith);
    }
    let x: u128 = a as u128 * factor;
    let y: u128 = b as u128;
    let large_negative: bool = large.bits >= SIGN;
    let small_negative: bool = small.bits >= SIGN;
    proof {
        assert((x + y) * unit == x * unit + y * unit) by (nonlinear_arith);
        assert((x - y) * unit == x * unit - y * unit) by (nonlinear_arith);
        assert((y - x) * unit == y * unit - x * unit) by (nonlinear_arith);
        assert(x > y ==> (x - y) * unit > 0) by (nonlinear_arith)
            requires
                unit > 0,
        ;
        assert(y > x ==> (y - x) * unit > 0) by (nonlinear_arith)
            requires
                unit > 0,
        ;
        assert(x + y > 0 ==> (x + y) * unit > 0) by (nonlinear_arith)
            requires
                unit > 0,
        ;
        assert(0 * unit == 0) by (nonlinear_arith);
    }
    if large_negative == small_negative {
        if x + y == 0 {
            if large_negative {
                Binary64 { bits: SIGN }
            } else {
                Binary64 { bits: 0 }
            }
        } else {
            rounded(x + y, scale, large_negative)
        }
    } else if x > y {
        rounded(x - y, scale, large_negative)
    } else if y > x {
        rounded(y - x, scale, small_negative)
    } else {
        Binary64 { bits: 0 }
    }
}

impl Binary64 {
    /// The sum of two values, rounded to the nearest value.
    pub fn plus(self, other: Binary64) -> (sum: Binary64)
        ensures
            sum.is_sum(self, other),
            sum == self.sum(other),
    {
        let sum = if self.is_not_a_number() || other.is_not_a_number() {
            Binary64 { bits: NAN_BITS }
        } else if self.exponent_of() == 2047 {
            if other.exponent_of() == 2047 && (self.bits >= SIGN) != (other.bits >= SIGN) {
                Binary64 { bits: NAN_BITS }
            } else {
                self
            }
        } else if other.exponent_of() == 2047 {
            other
        } else if self.exponent_of() >= other.exponent_of() {
            finite_sum(self, other)
        } else {
            finite_sum(other, self)
        };
        proof {
            assert(sum.is_sum(self, other));
            lemma_sum_is_unique(sum, self.sum(other), self, other);
        }
        sum
    }
}

/// The sum of a sequence of values, added one after another to zero.
pub open spec fn running_sum(values: Seq<Binary64>) -> Binary64
    decreases values.len(),
{
    if values.len() == 0 {
        Binary64 { bits: 0 }
    } else {
        running_sum(values.drop_last()).sum(values.last())
    }
}

/// The largest pattern up to `top` whose magnitude does not exceed a number.
proof fn lemma_floor_pattern(number: int, top: int) -> (floor: int)
    requires
        number >= 0,
        0 <= top <= INFINITY_BITS,
    ensures
        0 <= floor <= top,
        (Binary64 { bits: floor as u64 }).magnitude() <= number,
        floor < top ==> number < (Binary64 { bits: (floor + 1) as u64 }).magnitude(),
    decreases top,
{
    if top == 0 {
        assert((Binary64 { bits: 0 }).magnitude() == 0);
        0
    } else if (Binary64 { bits: top as u64 }).magnitude() <= number {
        top
    } else {
        lemma_floor_pattern(number, top - 1)
    }
}

/// Every number other than zero has a nearest value.
proof fn lemma_nearest_exists(number: int)
    requires
        number != 0,
    ensures
        exists|value: Binary64| value.is_nearest(number),
{
    let size = if number < 0 {
        -number
    } else {
        number
    };
    let sign = if number < 0 {
        SIGN as int
    } else {
        0
    };
    let floor = lemma_floor_pattern(size, INFINITY_BITS as int);
    let low = Binary64 { bits: floor as u64 };
    if floor == INFINITY_BITS {
        let value = Binary64 { bits: (floor + sign) as u64 };
        assert(value.unsigned_bits() == INFINITY_BITS);
        assert(value.negative() == (number < 0));
        lemma_magnitude_is_monotone(low, value);
        lemma_infinity_is_nearest(value, size);
        assert(value.is_nearest(number));
    } else {
        let high = Binary64 { bits: (floor + 1) as u64 };
        let (down, back) = (size - low.magnitude(), high.magnitude() - size);
        let up = back < down || (back == down && high.bits % 2 == 0);
        let value = Binary64 {
            bits: (floor + sign + if up {
                1int
            } else {
                0
            }) as u64,
        };
        assert(value.unsigned_bits() == if up {
            floor + 1
        } else {
            floor
        });
        assert(value.negative() == (number < 0));
        assert(!high.is_nan());
        lemma_nearest(low, high, size, up, value);
        assert(value.is_nearest(number));
    }
}

/// Any two values have a sum.
pub proof fn law_sum_exists(a: Binary64, b: Binary64)
    ensures
        a.sum(b).is_sum(a, b),
{
    let number = a.units() + b.units();
    if a.is_nan() || b.is_nan() {
        assert((Binary64 { bits: NAN_BITS }).is_sum(a, b));
    } else if a.is_infinite() {
        if b.is_infinite() && a.negative() != b.negative() {
            assert((Binary64 { bits: NAN_BITS }).is_sum(a, b));
        } else {
            assert(a.is_sum(a, b));
        }
    } else if b.is_infinite() {
        assert(b.is_sum(a, b));
    } else if number == 0 {
        assert((Binary64 {
            bits: if a.negative() && b.negative() {
                SIGN
            } else {
                0
            },
        }).is_sum(a, b));
    } else {
        lemma_nearest_exists(number);
        let value = choose|value: Binary64| value.is_nearest(number);
        assert(value.is_sum(a, b));
    }
}

/// A sum of finite values may be too large, but it is always a number or an infinity.
pub proof fn law_sum_of_finite_values_is_no_nan(values: Seq<Binary64>)
    requires
        forall|i: int| 0 <= i < values.len() ==> (#[trigger] values[i]).is_finite(),
    ensures
        !running_sum(values).is_nan(),
    decreases values.len(),
{
    if values.len() == 0 {
        assert(!(Binary64 { bits: 0 }).is_nan());
    } else {
        let before = values.drop_last();
        assert forall|i: int| 0 <= i < before.len() implies (#[trigger] before[i]).is_finite() by {
            assert(before[i] == values[i]);
        }
        law_sum_of_finite_values_is_no_nan(before);
        assert(values[values.len() - 1].is_finite());
        law_sum_exists(running_sum(before), values.last());
        assert(!(Binary64 { bits: 0 }).is_nan() && !(Binary64 { bits: SIGN }).is_nan());
    }
}

/// The sum of a sequence of values, added one after another to zero.
pub fn sum_of(values: &Vec<Binary64>) -> (sum: Binary64)
    ensures
        sum == running_sum(values@),
{
    let mut sum = Binary64 { bits: 0 };
    let mut i: usize = 0;
    while i < values.len()
        invariant
            i <= values@.len(),
            sum == running_sum(values@.take(i as int)),
        decreases values@.len() - i,
    {
        assert(values@.take(i + 1).drop_last() =~= values@.take(i as int));
        sum = sum.plus(values[i]);
        i += 1;
    }
    assert(values@.take(values@.len() as int) =~= values@);
    sum
}

} // verus!
