//! What the operations on binary64 values mean, told on the numbers that the patterns stand for.
use crate::addition::{law_sum_exists, running_sum};
use crate::binary64::{lemma_multiples, one, Binary64, Side};
use vstd::arithmetic::power2::{lemma_pow2_pos, pow2};
use vstd::prelude::*;

verus! {

/// How far two numbers are apart.
pub open spec fn gap(a: int, b: int) -> int {
    if a <= b {
        b - a
    } else {
        a - b
    }
}

/// A pattern is made of a sign, an exponent of 11 bits and a fraction of 52 bits, and stands for
/// the number that these give, counted in two to the power of -1074.
pub proof fn law_pattern_stands_for_its_number(
    value: Binary64,
    negative: bool,
    exponent: int,
    fraction: int,
)
    requires
        0 <= exponent < 2048,
        0 <= fraction < 0x10_0000_0000_0000,
        value.bits == (if negative {
            0x8000_0000_0000_0000int
        } else {
            0int
        }) + exponent * 0x10_0000_0000_0000 + fraction,
    ensures
        value.is_nan() <==> exponent == 2047 && fraction != 0,
        value.is_finite() <==> exponent < 2047,
        value.is_infinite() <==> exponent == 2047 && fraction == 0,
        ({
            let size = if exponent == 0 {
                fraction
            } else {
                (0x10_0000_0000_0000 + fraction) * pow2((exponent - 1) as nat)
            };
            value.units() == if negative {
                -size
            } else {
                size
            }
        }),
{
    let rest = exponent * 0x10_0000_0000_0000 + fraction;
    assert(0 <= rest < 0x8000_0000_0000_0000);
    assert(value.unsigned_bits() == rest);
    assert(value.exponent() == exponent && value.fraction() == fraction);
}

/// One value is above another where both are numbers and it is the larger one; one of them is above
/// the other unless they stand for the same number.
pub proof fn law_order_is_that_of_the_numbers(a: Binary64, b: Binary64)
    ensures
        a.is_nan() || b.is_nan() ==> !a.above(b) && !b.above(a),
        !a.is_nan() && !b.is_nan() ==> {
            &&& a.above(b) <==> a.units() > b.units()
            &&& a.above(b) || b.above(a) || a.units() == b.units()
        },
{
}

/// The larger of two values is one of them and no less than either; where one is no number it is
/// the other.
pub proof fn law_larger_value_is_no_less(a: Binary64, b: Binary64)
    ensures
        a.larger(b) == a || a.larger(b) == b,
        a.is_nan() ==> a.larger(b) == b,
        b.is_nan() && !a.is_nan() ==> a.larger(b) == a,
        !a.is_nan() && !b.is_nan() ==> a.larger(b).units() >= a.units() && a.larger(b).units()
            >= b.units(),
{
}

/// The whole part of a value is the largest whole number that is no larger, within 64 bits: zero
/// for what is negative or no number, and the largest count for what is too large.
pub proof fn law_whole_part_is_no_larger(value: Binary64)
    ensures
        value.is_nan() || value.units() < 0 ==> value.truncated() == 0,
        !value.is_nan() && 0 <= value.units() < 0x1_0000_0000_0000_0000 * pow2(1074) ==> {
            &&& value.truncated() * pow2(1074) <= value.units()
            &&& value.units() < (value.truncated() + 1) * pow2(1074)
        },
        !value.is_nan() && value.units() >= 0x1_0000_0000_0000_0000 * pow2(1074)
            ==> value.truncated() == 0xFFFF_FFFF_FFFF_FFFF,
        0 <= value.truncated() <= 0xFFFF_FFFF_FFFF_FFFF,
{
    let unit = pow2(1074) as int;
    lemma_pow2_pos(1074);
    assert(one() as int * 0x1_0000_0000_0000_0000 == 0x1_0000_0000_0000_0000 * unit);
    if !value.is_nan() && 0 <= value.units() < 0x1_0000_0000_0000_0000 * unit {
        let (n, q) = (value.units(), value.units() / unit);
        vstd::arithmetic::div_mod::lemma_fundamental_div_mod(n, unit);
        assert(q * unit <= n < (q + 1) * unit) by (nonlinear_arith)
            requires
                n == unit * q + n % unit,
                0 <= n % unit < unit,
        ;
        lemma_multiples(q, 0x1_0000_0000_0000_0000, unit);
        lemma_multiples(q + 1, 0, unit);
        lemma_multiples(0, 1, unit);
    }
}

/// A value lies before, at or after a whole number as it is smaller, equal or larger.
pub proof fn law_side_is_that_of_the_numbers(value: Binary64, whole: int)
    ensures
        value.side(whole) == Side::Before <==> value.units() < whole * pow2(1074),
        value.side(whole) == Side::At <==> value.units() == whole * pow2(1074),
        value.side(whole) == Side::After <==> value.units() > whole * pow2(1074),
{
}

/// The sum of two finite values is the value nearest to the sum of the numbers, and where two are
/// as near the one with an even pattern; infinity takes part as two to the power of 1024. Where the
/// numbers cancel out, the sum is negative zero only for two negative zeros.
pub proof fn law_sum_is_rounded_to_nearest(a: Binary64, b: Binary64, other: Binary64)
    requires
        a.is_finite(),
        b.is_finite(),
        !other.is_nan(),
    ensures
        ({
            let (sum, exact) = (a.sum(b), a.units() + b.units());
            &&& !sum.is_nan()
            &&& gap(sum.units(), exact) <= gap(other.units(), exact)
            &&& gap(sum.units(), exact) == gap(other.units(), exact) && other.units()
                != sum.units() ==> sum.bits % 2 == 0
            &&& exact == 0 ==> sum.bits == if a.bits >= 0x8000_0000_0000_0000 && b.bits
                >= 0x8000_0000_0000_0000 {
                0x8000_0000_0000_0000u64
            } else {
                0u64
            }
        }),
{
    let (sum, exact) = (a.sum(b), a.units() + b.units());
    law_sum_exists(a, b);
    assert(!a.is_nan() && !b.is_nan() && !a.is_infinite() && !b.is_infinite());
    assert((Binary64 { bits: 0 }).units() == 0 && !(Binary64 { bits: 0 }).is_nan());
    let negative_zero = Binary64 { bits: 0x8000_0000_0000_0000 };
    assert(negative_zero.units() == 0 && !negative_zero.is_nan());
    if exact != 0 && other.units() != sum.units() {
        assert(sum.distance(exact) == gap(sum.units(), exact));
        assert(other.distance(exact) == gap(other.units(), exact));
    }
}

/// The sum with something that is no number is no number, nor is that of two infinities of opposite
/// sign; else an infinity stays what it is.
pub proof fn law_sum_beyond_the_numbers(a: Binary64, b: Binary64)
    ensures
        a.is_nan() || b.is_nan() ==> a.sum(b).is_nan(),
        a.is_infinite() && b.is_infinite() ==> if a == b {
            a.sum(b) == a
        } else {
            a.sum(b).is_nan()
        },
        a.is_infinite() && b.is_finite() ==> a.sum(b) == a,
        a.is_finite() && b.is_infinite() ==> a.sum(b) == b,
{
    law_sum_exists(a, b);
    if a.is_infinite() && b.is_infinite() {
        assert(a.unsigned_bits() == b.unsigned_bits());
    }
}

/// Values are added one by one in their order, starting with zero.
pub proof fn law_values_are_added_one_by_one(values: Seq<Binary64>, value: Binary64)
    ensures
        running_sum(Seq::empty()).bits == 0,
        running_sum(values.push(value)) == running_sum(values).sum(value),
{
    assert(values.push(value).drop_last() =~= values);
}

} // verus!
