//! Rounding of exact ratios to the nearest double, ties to even.
//!
//! Magnitudes are measured in units of 2^-1074, the smallest positive double,
//! so that every finite double is a whole number of units. The encoding of a
//! positive double read as an integer grows with the double, and halving a
//! double at or above 2^53 units takes one from its exponent field: that gives
//! the recursive definition in `round_magnitude`.

use vstd::prelude::*;
use vstd::arithmetic::power2::*;
use vstd::arithmetic::div_mod::*;
use vstd::arithmetic::mul::*;

verus! {

/// The integer nearest to `num / den`, a tie going to the even neighbour.
pub open spec fn round_half_even(num: nat, den: nat) -> nat {
    let q = num / den;
    let r = num % den;
    if 2 * r < den || (2 * r == den && q % 2 == 0) {
        q
    } else {
        q + 1
    }
}

/// The encoding, as an integer without bound on the exponent field, of the
/// double nearest to `num / den` units.
///
/// Below 2^53 units the doubles are the whole numbers of units and the encoding
/// is the number itself. At or above, the ratio is halved and 2^52, one step of
/// the exponent field, is added to the encoding of the half.
pub open spec fn round_magnitude(num: nat, den: nat) -> nat
    decreases num - den,
{
    if den == 0 || num < den * 0x20_0000_0000_0000 {
        round_half_even(num, den)
    } else {
        0x10_0000_0000_0000 + round_magnitude(num, 2 * den)
    }
}

/// The encoding of the double nearest to `p / q * 2^t` units.
pub open spec fn scaled_magnitude(p: nat, q: nat, t: int) -> nat {
    if t >= 0 {
        round_magnitude(p * pow2(t as nat), q)
    } else {
        round_magnitude(p, q * pow2((-t) as nat))
    }
}

/// An encoding cut off at infinity, where the exponent field is full.
pub open spec fn saturate(m: nat) -> u64 {
    if m >= 0x7ff0_0000_0000_0000 {
        0x7ff0_0000_0000_0000u64
    } else {
        m as u64
    }
}

/// Doubling both parts of a ratio leaves the nearest integer unchanged.
pub proof fn lemma_round_half_even_double(num: nat, den: nat)
    requires
        den > 0,
    ensures
        round_half_even(2 * num, 2 * den) == round_half_even(num, den),
{
    let q = (num / den) as int;
    let r = (num % den) as int;
    lemma_fundamental_div_mod(num as int, den as int);
    lemma_mod_bound(num as int, den as int);
    assert(2 * num == q * (2 * den) + 2 * r) by (nonlinear_arith)
        requires
            num == den * q + r,
    ;
    lemma_fundamental_div_mod_converse(2 * num as int, 2 * den as int, q, 2 * r);
}

/// Doubling both parts of a ratio leaves its rounding unchanged.
pub proof fn lemma_round_magnitude_double(num: nat, den: nat)
    requires
        den > 0,
    ensures
        round_magnitude(2 * num, 2 * den) == round_magnitude(num, den),
    decreases num - den,
{
    lemma_round_half_even_double(num, den);
    if num >= den * 0x20_0000_0000_0000 {
        lemma_round_magnitude_double(num, 2 * den);
    }
}

/// Multiplying both parts of a ratio by a power of two leaves its rounding
/// unchanged.
pub proof fn lemma_round_magnitude_scale(num: nat, den: nat, k: nat)
    requires
        den > 0,
    ensures
        round_magnitude(num * pow2(k), den * pow2(k)) == round_magnitude(num, den),
    decreases k,
{
    if k == 0 {
        lemma2_to64();
        assert(num * 1 == num);
        assert(den * 1 == den);
    } else {
        let h = pow2((k - 1) as nat);
        lemma_pow2_unfold(k);
        lemma_pow2_pos((k - 1) as nat);
        lemma_round_magnitude_scale(num, den, (k - 1) as nat);
        assert(num * (2 * h) == 2 * (num * h)) by (nonlinear_arith);
        assert(den * (2 * h) == 2 * (den * h)) by (nonlinear_arith);
        assert(den * h > 0) by (nonlinear_arith)
            requires
                den > 0,
                h > 0,
        ;
        lemma_round_magnitude_double(num * h, den * h);
    }
}

/// Multiplying both parts of a ratio by one positive number leaves its
/// rounding unchanged.
pub proof fn lemma_round_magnitude_multiple(num: nat, den: nat, c: nat)
    requires
        den > 0,
        c > 0,
    ensures
        round_magnitude(c * num, c * den) == round_magnitude(num, den),
    decreases num - den,
{
    let q = (num / den) as int;
    let r = (num % den) as int;
    lemma_fundamental_div_mod(num as int, den as int);
    lemma_mod_bound(num as int, den as int);
    assert(c * num == q * (c * den) + c * r) by (nonlinear_arith)
        requires
            num == den * q + r,
    ;
    assert(0 <= c * r < c * den) by (nonlinear_arith)
        requires
            0 <= r < den,
            c > 0,
    ;
    lemma_fundamental_div_mod_converse((c * num) as int, (c * den) as int, q, c * r);
    assert(2 * (c * r) < c * den <==> 2 * r < den) by (nonlinear_arith)
        requires
            c > 0,
    ;
    assert(2 * (c * r) == c * den <==> 2 * r == den) by (nonlinear_arith)
        requires
            c > 0,
    ;
    assert(round_half_even(c * num, c * den) == round_half_even(num, den));
    assert(c * num < (c * den) * 0x20_0000_0000_0000 <==> num < den * 0x20_0000_0000_0000)
        by (nonlinear_arith)
        requires
            c > 0,
    ;
    assert(c * den > 0) by (nonlinear_arith)
        requires
            c > 0,
            den > 0,
    ;
    if num >= den * 0x20_0000_0000_0000 {
        lemma_round_magnitude_multiple(num, 2 * den, c);
        assert(c * (2 * den) == 2 * (c * den)) by (nonlinear_arith);
    }
}

/// A ratio of at least 2^(52 + j) units has an encoding `j` exponent steps
/// above that of the ratio divided by 2^j.
pub proof fn lemma_round_magnitude_shift(num: nat, den: nat, j: nat)
    requires
        den > 0,
        num >= den * pow2(52 + j),
    ensures
        round_magnitude(num, den) == j * 0x10_0000_0000_0000 + round_magnitude(
            num,
            den * pow2(j),
        ),
    decreases j,
{
    if j == 0 {
        lemma2_to64();
        assert(den * 1 == den);
    } else {
        let h = pow2((j - 1) as nat);
        lemma_pow2_unfold(j);
        lemma_pow2_unfold(52 + j);
        lemma_pow2_pos((j - 1) as nat);
        lemma_pow2_pos((52 + j - 1) as nat);
        lemma_pow2_adds((j - 1) as nat, 53);
        lemma2_to64_rest();
        assert(den * pow2((52 + j - 1) as nat) <= den * pow2(52 + j)) by (nonlinear_arith)
            requires
                pow2(52 + j) == 2 * pow2((52 + j - 1) as nat),
        ;
        lemma_round_magnitude_shift(num, den, (j - 1) as nat);
        assert((den * h) * 0x20_0000_0000_0000 == den * pow2(52 + j)) by (nonlinear_arith)
            requires
                pow2(52 + j) == h * 0x20_0000_0000_0000,
        ;
        assert(den * h > 0) by (nonlinear_arith)
            requires
                den > 0,
                h > 0,
        ;
        assert(2 * (den * h) == den * pow2(j)) by (nonlinear_arith)
            requires
                pow2(j) == 2 * h,
        ;
    }
}

/// Powers of two on both sides of a ratio cancel into one exponent.
pub proof fn lemma_scaled_magnitude(p: nat, q: nat, a: nat, b: nat)
    requires
        q > 0,
    ensures
        round_magnitude(p * pow2(a), q * pow2(b)) == scaled_magnitude(p, q, a - b),
{
    if a >= b {
        let k = (a - b) as nat;
        lemma_pow2_adds(k, b);
        assert(p * pow2(a) == (p * pow2(k)) * pow2(b)) by (nonlinear_arith)
            requires
                pow2(a) == pow2(k) * pow2(b),
        ;
        lemma_round_magnitude_scale(p * pow2(k), q, b);
    } else {
        let k = (b - a) as nat;
        lemma_pow2_adds(k, a);
        lemma_pow2_pos(k);
        assert(q * pow2(b) == (q * pow2(k)) * pow2(a)) by (nonlinear_arith)
            requires
                pow2(b) == pow2(k) * pow2(a),
        ;
        assert(q * pow2(k) > 0) by (nonlinear_arith)
            requires
                q > 0,
                pow2(k) > 0,
        ;
        lemma_round_magnitude_scale(p, q * pow2(k), a);
    }
}

/// Rounds `p / q` units, for parts that fit the machine.
fn round_ratio(p: u128, q: u128) -> (m: u128)
    requires
        0 < q < 0x8000_0000_0000_0000_0000_0000_0000_0000,
        p < 0x0200_0000_0000_0000_0000_0000_0000_0000,
    ensures
        m == round_magnitude(p as nat, q as nat),
        m < 0x0400_0000_0000_0000_0000_0000_0000_0000,
{
    let mut acc: u128 = 0;
    let mut d: u128 = q;
    while p / 0x20_0000_0000_0000 >= d
        invariant
            0 < d < 0x8000_0000_0000_0000_0000_0000_0000_0000,
            p < 0x0200_0000_0000_0000_0000_0000_0000_0000,
            acc + 0x10_0000_0000_0000 <= d * 0x10_0000_0000_0000,
            acc == 0 || d <= 2 * (p / 0x20_0000_0000_0000),
            round_magnitude(p as nat, q as nat) == acc + round_magnitude(p as nat, d as nat),
        decreases p - d,
    {
        acc = acc + 0x10_0000_0000_0000;
        d = d * 2;
    }
    let quot: u128 = p / d;
    let rem: u128 = p % d;
    proof {
        lemma_fundamental_div_mod(p as int, d as int);
        lemma_mod_bound(p as int, d as int);
        assert(quot < 0x20_0000_0000_0000) by (nonlinear_arith)
            requires
                p == d * quot + rem,
                0 <= rem,
                0 < d,
                p < d * 0x20_0000_0000_0000,
        ;
    }
    if 2 * rem < d || (2 * rem == d && quot % 2 == 0) {
        acc + quot
    } else {
        acc + quot + 1
    }
}

/// Rounds `p / q * 2^t` units to the encoding of the nearest double, or to that
/// of infinity where the nearest double would lie beyond the largest.
pub fn round_scaled(p: u128, q: u128, t: i64) -> (m: u64)
    requires
        p < 0x0200_0000_0000_0000_0000_0000_0000_0000,
        0 < q < 0x1_0000_0000_0000_0000,
        -5000 <= t <= 5000,
    ensures
        m == saturate(scaled_magnitude(p as nat, q as nat, t as int)),
{
    if p == 0 {
        proof {
            if t >= 0 {
                assert(0 * pow2(t as nat) == 0);
            } else {
                lemma_pow2_pos((-t) as nat);
                assert(q * pow2((-t) as nat) > 0) by (nonlinear_arith)
                    requires
                        q > 0,
                        pow2((-t) as nat) > 0,
                ;
            }
        }
        return 0;
    }
    let mut p: u128 = p;
    let mut q: u128 = q;
    let mut t: i64 = t;
    let ghost goal = scaled_magnitude(p as nat, q as nat, t as int);
    if t > 0 {
        while t > 0 && p < 0x0100_0000_0000_0000_0000_0000_0000_0000
            invariant
                0 < p < 0x0200_0000_0000_0000_0000_0000_0000_0000,
                0 < q < 0x1_0000_0000_0000_0000,
                0 <= t <= 5000,
                goal == scaled_magnitude(p as nat, q as nat, t as int),
            decreases t,
        {
            proof {
                lemma_pow2_unfold(t as nat);
                let h = pow2((t - 1) as nat);
                assert(p * (2 * h) == (2 * p) * h) by (nonlinear_arith);
            }
            p = p * 2;
            t = t - 1;
        }
        let m: u128 = round_ratio(p, q);
        if t == 0 {
            proof {
                lemma2_to64();
                assert(p * 1 == p);
            }
            if m >= 0x7ff0_0000_0000_0000 {
                return 0x7ff0_0000_0000_0000;
            } else {
                return m as u64;
            }
        }
        proof {
            let j = t as nat;
            lemma_pow2_adds(52, j);
            lemma2_to64_rest();
            lemma_pow2_pos(j);
            assert(p * pow2(j) >= q * pow2(52 + j)) by (nonlinear_arith)
                requires
                    p >= q * 0x10_0000_0000_0000,
                    pow2(52 + j) == 0x10_0000_0000_0000 * pow2(j),
                    pow2(j) > 0,
            ;
            lemma_round_magnitude_shift(p as nat * pow2(j), q as nat, j);
            lemma_round_magnitude_scale(p as nat, q as nat, j);
        }
        if t >= 2047 {
            return 0x7ff0_0000_0000_0000;
        }
        let total: u128 = (t as u128) * 0x10_0000_0000_0000 + m;
        if total >= 0x7ff0_0000_0000_0000 {
            0x7ff0_0000_0000_0000
        } else {
            total as u64
        }
    } else {
        while t < 0 && q < 0x4000_0000_0000_0000_0000_0000_0000_0000
            invariant
                0 < p < 0x0200_0000_0000_0000_0000_0000_0000_0000,
                0 < q < 0x8000_0000_0000_0000_0000_0000_0000_0000,
                -5000 <= t <= 0,
                goal == scaled_magnitude(p as nat, q as nat, t as int),
            decreases -t,
        {
            proof {
                lemma_pow2_unfold((-t) as nat);
                let h = pow2((-t - 1) as nat);
                assert(q * (2 * h) == (2 * q) * h) by (nonlinear_arith);
                if t == -1 {
                    lemma2_to64();
                    assert((2 * q) * 1 == 2 * q);
                    assert(p * 1 == p);
                }
            }
            q = q * 2;
            t = t + 1;
        }
        if t < 0 {
            proof {
                let h = pow2((-t) as nat);
                lemma_pow2_unfold((-t) as nat);
                lemma_pow2_pos((-t - 1) as nat);
                let den = q as nat * h;
                assert(den >= 2 * q) by (nonlinear_arith)
                    requires
                        den == q * h,
                        h >= 2,
                        q > 0,
                ;
                lemma_small_mod(p as nat, den);
                lemma_basic_div(p as int, den as int);
            }
            return 0;
        }
        proof {
            lemma2_to64();
            assert(p * 1 == p);
        }
        let m: u128 = round_ratio(p, q);
        if m >= 0x7ff0_0000_0000_0000 {
            0x7ff0_0000_0000_0000
        } else {
            m as u64
        }
    }
}


/// The size, in units, of the double whose encoding is `m`; the exponent
/// field is not bounded.
pub open spec fn size(m: nat) -> nat {
    if m < 0x10_0000_0000_0000 {
        m
    } else {
        (m % 0x10_0000_0000_0000 + 0x10_0000_0000_0000) * pow2(
            (m / 0x10_0000_0000_0000 - 1) as nat,
        )
    }
}

/// How far the double of encoding `m` is from `num / den` units, in
/// `den`-ths of a unit.
pub open spec fn distance(m: nat, num: nat, den: nat) -> nat {
    if size(m) * den >= num {
        (size(m) * den - num) as nat
    } else {
        (num - size(m) * den) as nat
    }
}

/// The encoding of the largest double that is at most `num / den` units.
pub open spec fn floor_magnitude(num: nat, den: nat) -> nat
    decreases num - den,
{
    if den == 0 || num < den * 0x20_0000_0000_0000 {
        num / den
    } else {
        0x10_0000_0000_0000 + floor_magnitude(num, 2 * den)
    }
}

/// Up to 2^53 units the size of an encoding is the encoding.
proof fn lemma_size_small(q: nat)
    requires
        q <= 0x20_0000_0000_0000,
    ensures
        size(q) == q,
{
    lemma2_to64();
    if q >= 0x10_0000_0000_0000 {
        if q < 0x20_0000_0000_0000 {
            assert(q / 0x10_0000_0000_0000 == 1);
            assert(q % 0x10_0000_0000_0000 == q - 0x10_0000_0000_0000);
            assert(pow2(0) == 1);
            assert(q * 1 == q);
        } else {
            assert(q / 0x10_0000_0000_0000 == 2);
            assert(q % 0x10_0000_0000_0000 == 0);
            assert(pow2(1) == 2);
            assert(0x10_0000_0000_0000 * 2 == q);
        }
    }
}

/// One more in the exponent field of a normal double is twice the size.
proof fn lemma_size_double(m: nat)
    requires
        m >= 0x10_0000_0000_0000,
    ensures
        size(m + 0x10_0000_0000_0000) == 2 * size(m),
{
    let e = m / 0x10_0000_0000_0000;
    let sig = m % 0x10_0000_0000_0000 + 0x10_0000_0000_0000;
    assert((m + 0x10_0000_0000_0000) / 0x10_0000_0000_0000 == e + 1);
    assert((m + 0x10_0000_0000_0000) % 0x10_0000_0000_0000 == m % 0x10_0000_0000_0000);
    lemma_pow2_unfold(e);
    let h = pow2((e - 1) as nat);
    assert(sig * (2 * h) == 2 * (sig * h)) by (nonlinear_arith);
}

/// The next encoding is that of a larger double.
proof fn lemma_size_step(m: nat)
    ensures
        size(m) < size(m + 1),
{
    let e = m / 0x10_0000_0000_0000;
    let f = m % 0x10_0000_0000_0000;
    if m + 1 < 0x10_0000_0000_0000 {
    } else if m < 0x10_0000_0000_0000 {
        lemma_size_small(m + 1);
    } else {
        lemma_pow2_pos((e - 1) as nat);
        let h = pow2((e - 1) as nat);
        if f + 1 < 0x10_0000_0000_0000 {
            assert((m + 1) / 0x10_0000_0000_0000 == e);
            assert((m + 1) % 0x10_0000_0000_0000 == f + 1);
            assert((f + 1 + 0x10_0000_0000_0000) * h > (f + 0x10_0000_0000_0000) * h)
                by (nonlinear_arith)
                requires
                    h > 0,
            ;
        } else {
            assert((m + 1) / 0x10_0000_0000_0000 == e + 1);
            assert((m + 1) % 0x10_0000_0000_0000 == 0);
            lemma_pow2_unfold(e);
            assert(0x10_0000_0000_0000 * (2 * h) > (f + 0x10_0000_0000_0000) * h)
                by (nonlinear_arith)
                requires
                    h > 0,
                    f < 0x10_0000_0000_0000,
            ;
        }
    }
}

/// A larger encoding is that of a larger double.
pub proof fn lemma_size_grows(a: nat, b: nat)
    requires
        a < b,
    ensures
        size(a) < size(b),
    decreases b - a,
{
    lemma_size_step(a);
    if a + 1 < b {
        lemma_size_grows(a + 1, b);
    }
}

/// The doubles of encodings `floor_magnitude` and the next one enclose the
/// ratio, and `round_magnitude` is the one of the two that is nearer to it,
/// or the even one where they are equally near.
proof fn lemma_bracket(num: nat, den: nat)
    requires
        den > 0,
    ensures
        ({
            let f = floor_magnitude(num, den);
            let m = round_magnitude(num, den);
            let lo = size(f) * den;
            let hi = size(f + 1) * den;
            &&& lo <= num < hi
            &&& num >= den * 0x10_0000_0000_0000 ==> f >= 0x10_0000_0000_0000
            &&& m == (if 2 * num < lo + hi || (2 * num == lo + hi && f % 2 == 0) {
                f
            } else {
                f + 1
            })
        }),
    decreases num - den,
{
    if num < den * 0x20_0000_0000_0000 {
        let q = num / den;
        let r = num % den;
        lemma_fundamental_div_mod(num as int, den as int);
        lemma_mod_bound(num as int, den as int);
        assert(q < 0x20_0000_0000_0000) by (nonlinear_arith)
            requires
                num == den * q + r,
                0 <= r,
                0 < den,
                num < den * 0x20_0000_0000_0000,
        ;
        lemma_size_small(q);
        lemma_size_small(q + 1);
        assert(q * den == den * q) by (nonlinear_arith);
        assert((q + 1) * den == den * q + den) by (nonlinear_arith);
        if num >= den * 0x10_0000_0000_0000 {
            assert(q >= 0x10_0000_0000_0000) by (nonlinear_arith)
                requires
                    num == den * q + r,
                    r < den,
                    0 < den,
                    num >= den * 0x10_0000_0000_0000,
            ;
        }
    } else {
        lemma_bracket(num, 2 * den);
        let g = floor_magnitude(num, 2 * den);
        assert(num >= (2 * den) * 0x10_0000_0000_0000);
        lemma_size_double(g);
        lemma_size_double(g + 1);
        assert(size(g) * (2 * den) == (2 * size(g)) * den) by (nonlinear_arith);
        assert(size(g + 1) * (2 * den) == (2 * size(g + 1)) * den) by (nonlinear_arith);
    }
}

/// No double is nearer to the ratio than the one that `round_magnitude`
/// gives; and where another is as near, the one given has an even encoding,
/// which is to say an even significand.
pub proof fn rounding_gives_the_nearest_double(num: nat, den: nat, other: nat)
    requires
        den > 0,
    ensures
        distance(round_magnitude(num, den), num, den) <= distance(other, num, den),
        other != round_magnitude(num, den) && distance(other, num, den) == distance(
            round_magnitude(num, den),
            num,
            den,
        ) ==> round_magnitude(num, den) % 2 == 0,
{
    let f = floor_magnitude(num, den);
    lemma_bracket(num, den);
    if other < f {
        lemma_size_grows(other, f);
        assert(size(other) * den < size(f) * den) by (nonlinear_arith)
            requires
                size(other) < size(f),
                den > 0,
        ;
    } else if other > f + 1 {
        lemma_size_grows(f + 1, other);
        assert(size(other) * den > size(f + 1) * den) by (nonlinear_arith)
            requires
                size(other) > size(f + 1),
                den > 0,
        ;
    }
}

} // verus!
