//! IEEE 754 binary64 numbers, held as their bit patterns.
//!
//! A number of the language is a double. It is stored as the 64 bits of its
//! encoding, and every operation on it is integer arithmetic on those bits.
//! Results are rounded to the nearest double, ties to even. Where an
//! operation has no number to give, it gives the one NaN `NAN_BITS`, whatever
//! NaN it was given.

use vstd::prelude::*;
use vstd::arithmetic::power2::*;
use vstd::arithmetic::div_mod::*;
use crate::rounding::{
    lemma_round_magnitude_multiple, lemma_round_magnitude_scale, lemma_round_magnitude_shift,
    lemma_scaled_magnitude, round_half_even, round_magnitude, round_scaled, saturate, size,
};

verus! {

/// The sign bit of an encoding.
pub const SIGN_BIT: u64 = 0x8000_0000_0000_0000;

/// The encoding of positive infinity; every larger magnitude is a NaN.
pub const INFINITY_BITS: u64 = 0x7ff0_0000_0000_0000;

/// The one NaN that arithmetic produces.
pub const NAN_BITS: u64 = 0x7ff8_0000_0000_0000;

/// The implicit leading bit of a normal significand.
pub const HIDDEN_BIT: u64 = 0x0010_0000_0000_0000;

/// The encoding without its sign bit.
pub open spec fn magnitude(bits: u64) -> u64 {
    if bits >= SIGN_BIT {
        (bits - SIGN_BIT) as u64
    } else {
        bits
    }
}

/// Whether the sign bit is set.
pub open spec fn is_negative(bits: u64) -> bool {
    bits >= SIGN_BIT
}

/// Whether the encoding is a NaN.
pub open spec fn is_nan(bits: u64) -> bool {
    magnitude(bits) > INFINITY_BITS
}

/// Whether the encoding is an infinity.
pub open spec fn is_infinite(bits: u64) -> bool {
    magnitude(bits) == INFINITY_BITS
}

/// Whether the encoding is a zero of either sign.
pub open spec fn is_zero(bits: u64) -> bool {
    magnitude(bits) == 0
}

/// The position of a non-NaN number on the number line, as an integer that
/// grows with the number: both zeros are 0, and the infinities are the ends.
pub open spec fn rank(bits: u64) -> int {
    if is_negative(bits) {
        -(magnitude(bits) as int)
    } else {
        magnitude(bits) as int
    }
}

/// `a == b` on numbers: false if either is a NaN, and the two zeros are equal.
pub open spec fn number_eq(a: u64, b: u64) -> bool {
    !is_nan(a) && !is_nan(b) && rank(a) == rank(b)
}

/// `a < b` on numbers: false if either is a NaN.
pub open spec fn number_lt(a: u64, b: u64) -> bool {
    !is_nan(a) && !is_nan(b) && rank(a) < rank(b)
}

/// `a <= b` on numbers: false if either is a NaN.
pub open spec fn number_le(a: u64, b: u64) -> bool {
    !is_nan(a) && !is_nan(b) && rank(a) <= rank(b)
}

/// The encoding without its sign bit.
pub fn abs_bits(bits: u64) -> (r: u64)
    ensures
        r == magnitude(bits),
{
    if bits >= SIGN_BIT {
        bits - SIGN_BIT
    } else {
        bits
    }
}

/// Tells whether the number is a NaN.
pub fn nan(bits: u64) -> (r: bool)
    ensures
        r == is_nan(bits),
{
    abs_bits(bits) > INFINITY_BITS
}

/// Compares two numbers for equality as doubles do.
pub fn eq(a: u64, b: u64) -> (r: bool)
    ensures
        r == number_eq(a, b),
{
    let ma: u64 = abs_bits(a);
    let mb: u64 = abs_bits(b);
    if ma > INFINITY_BITS || mb > INFINITY_BITS {
        false
    } else if ma == 0 && mb == 0 {
        true
    } else {
        a == b
    }
}

/// Tells whether `a` is less than `b` as doubles.
pub fn lt(a: u64, b: u64) -> (r: bool)
    ensures
        r == number_lt(a, b),
{
    let ma: u64 = abs_bits(a);
    let mb: u64 = abs_bits(b);
    if ma > INFINITY_BITS || mb > INFINITY_BITS {
        false
    } else if a >= SIGN_BIT {
        if b >= SIGN_BIT {
            mb < ma
        } else {
            ma != 0 || mb != 0
        }
    } else {
        if b >= SIGN_BIT {
            false
        } else {
            ma < mb
        }
    }
}

/// Tells whether `a` is at most `b` as doubles.
pub fn le(a: u64, b: u64) -> (r: bool)
    ensures
        r == number_le(a, b),
{
    lt(a, b) || eq(a, b)
}

/// The number with its sign flipped; a NaN stays a NaN.
pub open spec fn number_neg(bits: u64) -> u64 {
    if is_negative(bits) {
        (bits - SIGN_BIT) as u64
    } else {
        (bits + SIGN_BIT) as u64
    }
}

/// Negates a number by flipping its sign bit.
pub fn neg(bits: u64) -> (r: u64)
    ensures
        r == number_neg(bits),
{
    if bits >= SIGN_BIT {
        bits - SIGN_BIT
    } else {
        bits + SIGN_BIT
    }
}


/// The significand of a finite magnitude, with the implicit bit where the
/// number is normal.
pub open spec fn significand(m: u64) -> nat {
    if m < HIDDEN_BIT {
        m as nat
    } else {
        (m % HIDDEN_BIT + HIDDEN_BIT) as nat
    }
}

/// The exponent field of a finite magnitude; a subnormal counts as 1.
pub open spec fn exponent(m: u64) -> nat {
    if m < HIDDEN_BIT {
        1
    } else {
        (m / HIDDEN_BIT) as nat
    }
}

/// The size of a finite number in units of 2^-1074, a whole number.
pub open spec fn units(bits: u64) -> nat {
    let m = magnitude(bits);
    significand(m) * pow2((exponent(m) - 1) as nat)
}

/// A finite number in units of 2^-1074, with its sign.
pub open spec fn value(bits: u64) -> int {
    if is_negative(bits) {
        -(units(bits) as int)
    } else {
        units(bits) as int
    }
}

/// A magnitude with a sign bit put on it.
pub open spec fn with_sign(negative: bool, m: u64) -> u64 {
    if negative {
        (m + SIGN_BIT) as u64
    } else {
        m
    }
}

/// The double nearest to a whole number of units, with its sign; the sign of
/// a zero is given apart.
pub open spec fn nearest(s: int, zero_negative: bool) -> u64 {
    if s == 0 {
        with_sign(zero_negative, 0)
    } else if s > 0 {
        saturate(round_magnitude(s as nat, 1))
    } else {
        with_sign(true, saturate(round_magnitude((-s) as nat, 1)))
    }
}

/// `a + b` on doubles, rounded to nearest, ties to even. A NaN operand or
/// the sum of opposite infinities gives the NaN; an exact zero is negative
/// only if both operands are.
pub open spec fn number_add(a: u64, b: u64) -> u64 {
    if is_nan(a) || is_nan(b) {
        NAN_BITS
    } else if is_infinite(a) {
        if is_infinite(b) && is_negative(a) != is_negative(b) {
            NAN_BITS
        } else {
            a
        }
    } else if is_infinite(b) {
        b
    } else {
        nearest(value(a) + value(b), is_negative(a) && is_negative(b))
    }
}

/// `a - b` on doubles: the sum of `a` and the negation of `b`.
pub open spec fn number_sub(a: u64, b: u64) -> u64 {
    number_add(a, number_neg(b))
}

/// `a * b` on doubles, rounded to nearest, ties to even. The sign is
/// negative where the operands' signs differ; a NaN operand or zero times
/// infinity gives the NaN.
pub open spec fn number_mul(a: u64, b: u64) -> u64 {
    let negative = is_negative(a) != is_negative(b);
    if is_nan(a) || is_nan(b) {
        NAN_BITS
    } else if is_infinite(a) || is_infinite(b) {
        if is_zero(a) || is_zero(b) {
            NAN_BITS
        } else {
            with_sign(negative, INFINITY_BITS)
        }
    } else {
        with_sign(negative, saturate(round_magnitude(units(a) * units(b), pow2(1074))))
    }
}

/// `a / b` on doubles, rounded to nearest, ties to even. The sign is
/// negative where the operands' signs differ; a NaN operand, zero by zero
/// and infinity by infinity give the NaN, and another number by zero gives
/// an infinity.
pub open spec fn number_div(a: u64, b: u64) -> u64 {
    let negative = is_negative(a) != is_negative(b);
    if is_nan(a) || is_nan(b) {
        NAN_BITS
    } else if is_infinite(a) {
        if is_infinite(b) {
            NAN_BITS
        } else {
            with_sign(negative, INFINITY_BITS)
        }
    } else if is_infinite(b) {
        with_sign(negative, 0)
    } else if is_zero(b) {
        if is_zero(a) {
            NAN_BITS
        } else {
            with_sign(negative, INFINITY_BITS)
        }
    } else {
        with_sign(negative, saturate(round_magnitude(units(a) * pow2(1074), units(b))))
    }
}

/// Splits a finite magnitude into its significand and exponent.
fn decode(m: u64) -> (r: (u64, i64))
    requires
        m < INFINITY_BITS,
    ensures
        r.0 == significand(m),
        r.1 == exponent(m),
        r.0 < 0x20_0000_0000_0000,
        1 <= r.1 <= 2046,
        r.0 == 0 <==> m == 0,
        r.1 > 1 ==> r.0 >= HIDDEN_BIT,
        m >= HIDDEN_BIT ==> (r.1 - 1) * 0x10_0000_0000_0000 + r.0 == m,
{
    if m < HIDDEN_BIT {
        (m, 1)
    } else {
        (m % HIDDEN_BIT + HIDDEN_BIT, (m / HIDDEN_BIT) as i64)
    }
}

/// Puts a sign bit on a magnitude.
fn signed(negative: bool, m: u64) -> (r: u64)
    requires
        m < SIGN_BIT,
    ensures
        r == with_sign(negative, m),
{
    if negative {
        m + SIGN_BIT
    } else {
        m
    }
}

/// Multiplies two numbers as doubles.
pub fn mul(a: u64, b: u64) -> (r: u64)
    ensures
        r == number_mul(a, b),
{
    let ma: u64 = abs_bits(a);
    let mb: u64 = abs_bits(b);
    let negative = (a >= SIGN_BIT) != (b >= SIGN_BIT);
    if ma > INFINITY_BITS || mb > INFINITY_BITS {
        return NAN_BITS;
    }
    if ma == INFINITY_BITS || mb == INFINITY_BITS {
        if ma == 0 || mb == 0 {
            return NAN_BITS;
        }
        return signed(negative, INFINITY_BITS);
    }
    let (sa, ea) = decode(ma);
    let (sb, eb) = decode(mb);
    assert(sa * sb < 0x400_0000_0000_0000_0000_0000_0000) by (nonlinear_arith)
        requires
            sa < 0x20_0000_0000_0000,
            sb < 0x20_0000_0000_0000,
    ;
    let p: u128 = (sa as u128) * (sb as u128);
    let t: i64 = ea + eb - 1076;
    let m: u64 = round_scaled(p, 1, t);
    proof {
        let ha = pow2((ea - 1) as nat);
        let hb = pow2((eb - 1) as nat);
        lemma_pow2_adds((ea - 1) as nat, (eb - 1) as nat);
        assert((sa * ha) * (sb * hb) == (sa * sb) * (ha * hb)) by (nonlinear_arith);
        lemma_scaled_magnitude(p as nat, 1, (ea + eb - 2) as nat, 1074);
        assert(1 * pow2(1074) == pow2(1074));
    }
    signed(negative, m)
}

/// Divides one number by another as doubles.
pub fn div(a: u64, b: u64) -> (r: u64)
    ensures
        r == number_div(a, b),
{
    let ma: u64 = abs_bits(a);
    let mb: u64 = abs_bits(b);
    let negative = (a >= SIGN_BIT) != (b >= SIGN_BIT);
    if ma > INFINITY_BITS || mb > INFINITY_BITS {
        return NAN_BITS;
    }
    if ma == INFINITY_BITS {
        if mb == INFINITY_BITS {
            return NAN_BITS;
        }
        return signed(negative, INFINITY_BITS);
    }
    if mb == INFINITY_BITS {
        return signed(negative, 0);
    }
    if mb == 0 {
        if ma == 0 {
            return NAN_BITS;
        }
        return signed(negative, INFINITY_BITS);
    }
    let (sa, ea) = decode(ma);
    let (sb, eb) = decode(mb);
    let t: i64 = ea - eb + 1074;
    let m: u64 = round_scaled(sa as u128, sb as u128, t);
    proof {
        let ha = pow2((ea - 1) as nat);
        lemma_pow2_adds((ea - 1) as nat, 1074);
        assert((sa * ha) * pow2(1074) == sa * (ha * pow2(1074))) by (nonlinear_arith);
        lemma_scaled_magnitude(sa as nat, sb as nat, (ea - 1 + 1074) as nat, (eb - 1) as nat);
    }
    signed(negative, m)
}


/// A normal number to which something under a quarter of its last place is
/// added, or from which it is taken, rounds back to itself.
proof fn lemma_far_sum(m: u64, y: nat)
    requires
        2 * HIDDEN_BIT <= m < INFINITY_BITS,
        4 * y < pow2((exponent(m) - 1) as nat),
    ensures
        y < units(m),
        round_magnitude(units(m) + y, 1) == m,
        y > 0 ==> round_magnitude((units(m) - y) as nat, 1) == m,
{
    let s = significand(m);
    let j = (exponent(m) - 1) as nat;
    let big = pow2(j);
    let half = pow2((j - 1) as nat);
    lemma_pow2_unfold(j);
    lemma_pow2_pos((j - 1) as nat);
    lemma_pow2_adds(52, j);
    lemma_pow2_adds(52, (j - 1) as nat);
    lemma2_to64_rest();
    assert(m == (j + 1) * 0x10_0000_0000_0000 + (s - 0x10_0000_0000_0000));
    assert(0x10_0000_0000_0000 <= s < 0x20_0000_0000_0000);
    assert(magnitude(m) == m);
    assert(units(m) == s * big);
    assert(1 * big == big);
    assert(1 * half == half);
    assert(s * big >= 0x10_0000_0000_0000 * big) by (nonlinear_arith)
        requires
            s >= 0x10_0000_0000_0000,
            big > 0,
    ;
    assert((s + 1) * big <= 0x20_0000_0000_0000 * big) by (nonlinear_arith)
        requires
            s + 1 <= 0x20_0000_0000_0000,
            big > 0,
    ;
    assert((s + 1) * big == s * big + big) by (nonlinear_arith);
    {
        let num = s * big + y;
        lemma_round_magnitude_shift(num, 1, j);
        lemma_fundamental_div_mod_converse(num as int, big as int, s as int, y as int);
        assert(round_magnitude(num, big) == round_half_even(num, big));
    }
    if y > 0 {
        let num = (s * big - y) as nat;
        if s > 0x10_0000_0000_0000 {
            let q = (s - 1) as nat;
            assert(q * big == s * big - big) by (nonlinear_arith)
                requires
                    q == s - 1,
            ;
            assert(q * big >= 0x10_0000_0000_0000 * big) by (nonlinear_arith)
                requires
                    q >= 0x10_0000_0000_0000,
                    big > 0,
            ;
            lemma_round_magnitude_shift(num, 1, j);
            lemma_fundamental_div_mod_converse(
                num as int,
                big as int,
                q as int,
                (big - y) as int,
            );
            assert(round_magnitude(num, big) == round_half_even(num, big));
        } else {
            let q = 0x1f_ffff_ffff_ffffnat;
            assert(s * big == 0x20_0000_0000_0000 * half) by (nonlinear_arith)
                requires
                    s == 0x10_0000_0000_0000,
                    big == 2 * half,
            ;
            assert(q * half == 0x20_0000_0000_0000 * half - half) by (nonlinear_arith)
                requires
                    q == 0x1f_ffff_ffff_ffff,
            ;
            assert(q * half >= 0x10_0000_0000_0000 * half) by (nonlinear_arith)
                requires
                    q == 0x1f_ffff_ffff_ffff,
                    half > 0,
            ;
            lemma_round_magnitude_shift(num, 1, (j - 1) as nat);
            lemma_fundamental_div_mod_converse(
                num as int,
                half as int,
                q as int,
                (half - y) as int,
            );
            assert(round_magnitude(num, half) == round_half_even(num, half));
        }
    }
}

/// Two to the power `n`.
fn power_of_two(n: u64) -> (r: u128)
    requires
        n <= 64,
    ensures
        r == pow2(n as nat),
        r <= 0x1_0000_0000_0000_0000,
{
    let mut r: u128 = 1;
    let mut i: u64 = 0;
    proof {
        lemma2_to64();
    }
    while i < n
        invariant
            i <= n <= 64,
            r == pow2(i as nat),
            pow2(64) == 0x1_0000_0000_0000_0000,
        decreases n - i,
    {
        proof {
            lemma_pow2_unfold((i + 1) as nat);
            if i + 1 < 64 {
                lemma_pow2_strictly_increases((i + 1) as nat, 64);
            }
        }
        r = r * 2;
        i = i + 1;
    }
    proof {
        if n < 64 {
            lemma_pow2_strictly_increases(n as nat, 64);
        }
    }
    r
}

/// Adds two finite numbers, the first with the larger exponent.
fn add_ordered(a: u64, b: u64) -> (r: u64)
    requires
        magnitude(a) < INFINITY_BITS,
        magnitude(b) < INFINITY_BITS,
        exponent(magnitude(a)) >= exponent(magnitude(b)),
    ensures
        r == nearest(value(a) + value(b), is_negative(a) && is_negative(b)),
{
    let ma: u64 = abs_bits(a);
    let mb: u64 = abs_bits(b);
    let na = a >= SIGN_BIT;
    let nb = b >= SIGN_BIT;
    let (sa, ea) = decode(ma);
    let (sb, eb) = decode(mb);
    let d: i64 = ea - eb;
    let ghost low = pow2((eb - 1) as nat);
    proof {
        lemma_pow2_adds(d as nat, (eb - 1) as nat);
        lemma_pow2_pos((eb - 1) as nat);
    }
    if d > 64 {
        proof {
            let y = units(b);
            lemma_pow2_adds(55, (d - 55) as nat);
            lemma_pow2_pos((d - 55) as nat);
            lemma2_to64_rest();
            assert(pow2(d as nat) >= 0x80_0000_0000_0000) by (nonlinear_arith)
                requires
                    pow2(d as nat) == pow2(55) * pow2((d - 55) as nat),
                    pow2(55) == 0x80_0000_0000_0000,
                    pow2((d - 55) as nat) > 0,
            ;
            assert(4 * (sb * low) < pow2(d as nat) * low) by (nonlinear_arith)
                requires
                    sb < 0x20_0000_0000_0000,
                    pow2(d as nat) >= 0x80_0000_0000_0000,
                    low > 0,
            ;
            lemma_far_sum(ma, y);
            assert(sb == 0 ==> y == 0) by (nonlinear_arith)
                requires
                    y == sb * low,
            ;
            assert(sb > 0 ==> y > 0) by (nonlinear_arith)
                requires
                    y == sb * low,
                    low > 0,
            ;
        }
        return a;
    }
    let w: u128 = power_of_two(d as u64);
    assert(sa * w < 0x20_0000_0000_0000 * 0x1_0000_0000_0000_0000) by (nonlinear_arith)
        requires
            sa < 0x20_0000_0000_0000,
            w <= 0x1_0000_0000_0000_0000,
    ;
    let big: u128 = (sa as u128) * w;
    let t: i64 = eb - 1;
    proof {
        assert(sa * (w * low) == (sa * w) * low) by (nonlinear_arith);
        assert(units(a) == big * low);
        assert(units(b) == sb * low);
        assert(big * low + sb * low == (big + sb) * low) by (nonlinear_arith);
        assert(big * low - sb * low == (big - sb) * low) by (nonlinear_arith);
        assert(sb * low - big * low == (sb - big) * low) by (nonlinear_arith);
        assert(forall|p: int| p > 0 ==> #[trigger] (p * low) > 0) by (nonlinear_arith)
            requires
                low > 0,
        ;
        assert(0 * low == 0);
    }
    if na == nb {
        let p: u128 = big + sb as u128;
        let m: u64 = round_scaled(p, 1, t);
        proof {
            assert(p > 0 ==> p * low > 0);
        }
        signed(na, m)
    } else if big > sb as u128 {
        let p: u128 = big - sb as u128;
        let m: u64 = round_scaled(p, 1, t);
        proof {
            assert(p * low > 0);
        }
        signed(na, m)
    } else if big < sb as u128 {
        let p: u128 = sb as u128 - big;
        let m: u64 = round_scaled(p, 1, t);
        proof {
            assert(p * low > 0);
        }
        signed(nb, m)
    } else {
        0
    }
}

/// Adds two numbers as doubles.
pub fn add(a: u64, b: u64) -> (r: u64)
    ensures
        r == number_add(a, b),
{
    let ma: u64 = abs_bits(a);
    let mb: u64 = abs_bits(b);
    if ma > INFINITY_BITS || mb > INFINITY_BITS {
        return NAN_BITS;
    }
    if ma == INFINITY_BITS {
        if mb == INFINITY_BITS && (a >= SIGN_BIT) != (b >= SIGN_BIT) {
            return NAN_BITS;
        }
        return a;
    }
    if mb == INFINITY_BITS {
        return b;
    }
    let (_, ea) = decode(ma);
    let (_, eb) = decode(mb);
    if ea >= eb {
        add_ordered(a, b)
    } else {
        add_ordered(b, a)
    }
}

/// Subtracts one number from another as doubles.
pub fn sub(a: u64, b: u64) -> (r: u64)
    ensures
        r == number_sub(a, b),
{
    self::add(a, neg(b))
}


/// The size of a number is the size that `rounding` gives its encoding.
pub proof fn units_is_size(bits: u64)
    ensures
        units(bits) == size(magnitude(bits) as nat),
{
    let m = magnitude(bits);
    if m < HIDDEN_BIT {
        lemma2_to64();
        assert(pow2(0) == 1);
        assert(m * 1 == m);
    }
}

/// Every finite double is the double nearest to its own size.
pub proof fn a_double_rounds_to_itself(m: u64)
    requires
        m < INFINITY_BITS,
    ensures
        saturate(round_magnitude(units(m), 1)) == m,
{
    if m < 2 * HIDDEN_BIT {
        lemma2_to64();
        assert(significand(m) == m);
        assert(units(m) == m * 1);
        lemma_fundamental_div_mod_converse(m as int, 1, m as int, 0);
    } else {
        lemma_pow2_pos((exponent(m) - 1) as nat);
        lemma_far_sum(m, 0);
    }
}

/// Adding a zero of either sign to a finite number that is not zero gives
/// the number.
pub proof fn adding_zero_gives_the_number(a: u64, zero: u64)
    requires
        0 < magnitude(a) < INFINITY_BITS,
        is_zero(zero),
    ensures
        number_add(a, zero) == a,
        number_add(zero, a) == a,
{
    a_double_rounds_to_itself(magnitude(a));
    assert(units(zero) == 0) by {
        assert(significand(0) == 0);
        assert(0 * pow2(0) == 0);
    }
    assert(units(a) > 0) by {
        let m = magnitude(a);
        lemma_pow2_pos((exponent(m) - 1) as nat);
        assert(significand(m) > 0);
        assert(significand(m) * pow2((exponent(m) - 1) as nat) > 0) by (nonlinear_arith)
            requires
                significand(m) > 0,
                pow2((exponent(m) - 1) as nat) > 0,
        ;
    }
    assert(units(magnitude(a)) == units(a));
}

/// A sum that is itself the size of a double is not rounded: where the exact
/// sum of two finite numbers is not zero and is the size of the finite
/// double `m`, the result is `m` with the sign of the sum.
pub proof fn an_exact_sum_is_not_rounded(a: u64, b: u64, m: u64)
    requires
        magnitude(a) < INFINITY_BITS,
        magnitude(b) < INFINITY_BITS,
        m < INFINITY_BITS,
        value(a) + value(b) != 0,
        units(m) == value(a) + value(b) || units(m) == -(value(a) + value(b)),
    ensures
        number_add(a, b) == with_sign(value(a) + value(b) < 0, m),
{
    a_double_rounds_to_itself(m);
}

/// A product that is itself the size of a double is not rounded.
pub proof fn an_exact_product_is_not_rounded(a: u64, b: u64, m: u64)
    requires
        magnitude(a) < INFINITY_BITS,
        magnitude(b) < INFINITY_BITS,
        m < INFINITY_BITS,
        units(a) * units(b) == units(m) * pow2(1074),
    ensures
        number_mul(a, b) == with_sign(is_negative(a) != is_negative(b), m),
{
    a_double_rounds_to_itself(m);
    lemma_round_magnitude_scale(units(m), 1, 1074);
    assert(1 * pow2(1074) == pow2(1074));
}

/// A quotient that is itself the size of a double is not rounded.
pub proof fn an_exact_quotient_is_not_rounded(a: u64, b: u64, m: u64)
    requires
        magnitude(a) < INFINITY_BITS,
        0 < magnitude(b) < INFINITY_BITS,
        m < INFINITY_BITS,
        units(a) * pow2(1074) == units(m) * units(b),
    ensures
        number_div(a, b) == with_sign(is_negative(a) != is_negative(b), m),
{
    a_double_rounds_to_itself(m);
    let mb = magnitude(b);
    lemma_pow2_pos((exponent(mb) - 1) as nat);
    assert(units(b) > 0) by (nonlinear_arith)
        requires
            units(b) == significand(mb) * pow2((exponent(mb) - 1) as nat),
            significand(mb) > 0,
            pow2((exponent(mb) - 1) as nat) > 0,
    ;
    lemma_round_magnitude_multiple(units(m), 1, units(b));
    assert(units(b) * units(m) == units(m) * units(b)) by (nonlinear_arith);
    assert(units(b) * 1 == units(b));
}

/// Adding two numbers gives the same in either order.
pub proof fn addition_is_commutative(a: u64, b: u64)
    ensures
        number_add(a, b) == number_add(b, a),
{
}

/// Multiplying two numbers gives the same in either order.
pub proof fn multiplication_is_commutative(a: u64, b: u64)
    ensures
        number_mul(a, b) == number_mul(b, a),
{
    assert(units(a) * units(b) == units(b) * units(a)) by (nonlinear_arith);
}

} // verus!
