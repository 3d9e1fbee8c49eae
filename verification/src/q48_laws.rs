//! How the fixed-point functions relate to themselves and to each other.
//!
//! The bounds against the real logarithm and power leave room for the last
//! digits. These laws leave none: each value follows from others, down to the
//! values that are known.

use crate::q48::{
    digit_set, exp2_digits, exp2_q, lemma_exp2_digits_of_zero,
    lemma_exp2_digits_range, lemma_saturation, log2_digits, log2_fixed, log2_int, log2_q, mantissa, pow_ratio_q, POW_ONE,
    TWO_POW_LUT,
};
use crate::quote_laws::{is_quotient, lemma_one_quotient};
use vstd::arithmetic::power2::{
    lemma2_to64, lemma2_to64_rest, lemma_pow2_adds, lemma_pow2_pos, lemma_pow2_unfold, pow2,
};
use vstd::prelude::*;

verus! {

// ---------------------------------------------------------------------------
// The logarithm
// ---------------------------------------------------------------------------

/// Halving a number of two or more takes one off its logarithm; numbers up to
/// one have none.
pub proof fn law_halving_lowers_the_logarithm(x: u128, l: u128, half: u128)
    requires
        call_ensures(log2_q, (x,), l),
        call_ensures(log2_q, ((x / 2) as u128,), half),
    ensures
        x >= 0x2_0000_0000_0000 ==> l == 0x1_0000_0000_0000 + half,
        x <= 0x1_0000_0000_0000 ==> l == 0,
        x < 0x2_0000_0000_0000 ==> l < 0x1_0000_0000_0000,
{
    if x <= POW_ONE {
        lemma_small_has_no_digits(x as nat, 48);
    }
    if x < 2 * POW_ONE {
        lemma_digits_fit(x as nat, 48);
        lemma2_to64_rest();
    }
    assert(x >= 2 * POW_ONE ==> x as nat / 2 == (x / 2) as nat);
}

/// Squaring a number below two doubles its logarithm, to the last digit.
pub proof fn law_squaring_doubles_the_logarithm(m: u128, square: u128, l: u128, k: u128)
    requires
        0x1_0000_0000_0000 <= m < 0x2_0000_0000_0000,
        is_quotient(square as int, m * m, 0x1_0000_0000_0000),
        call_ensures(log2_q, (m,), l),
        call_ensures(log2_q, (square,), k),
    ensures
        l == k / 2,
{
    let one = POW_ONE as nat;
    let a = m as nat * (m as nat);
    assert(a == m * m);
    lemma_one_quotient(square as int, m * m, POW_ONE as int);
    let s = square as nat;
    assert(s == a / one);
    assert(s < 4 * one) by (nonlinear_arith)
        requires
            s * one <= m * m,
            m < 2 * one,
            one == 0x1_0000_0000_0000,
    ;
    lemma2_to64_rest();
    if s >= 2 * one {
        lemma_fewer_digits(s / 2, 47);
        assert(s / 2 < 2 * one);
        assert(log2_int(s) == 1 + log2_int(s / 2));
        assert(mantissa(s) == mantissa(s / 2));
    } else {
        lemma_fewer_digits(s, 47);
    }
}

/// One digit less drops the last.
proof fn lemma_fewer_digits(m: nat, n: nat)
    ensures
        log2_digits(m, n) == log2_digits(m, n + 1) / 2,
    decreases n,
{
    let one = POW_ONE as nat;
    let square = m * m / one;
    let next = if square >= 2 * one {
        square / 2
    } else {
        square
    };
    lemma2_to64();
    if n > 0 {
        let i = (n - 1) as nat;
        lemma_fewer_digits(next, i);
        lemma_pow2_unfold(n);
        assert(i + 1 == n);
        let d = log2_digits(next, n);
        assert((2 * pow2(i) + d) / 2 == pow2(i) + d / 2);
    } else {
        assert(log2_digits(next, 0) == 0);
        assert(pow2(0) == 1);
    }
}

/// Numbers up to one have no digits.
proof fn lemma_small_has_no_digits(m: nat, n: nat)
    requires
        m <= POW_ONE,
    ensures
        log2_digits(m, n) == 0,
    decreases n,
{
    if n > 0 {
        let one = POW_ONE as nat;
        assert(m * m / one <= one) by (nonlinear_arith)
            requires
                m <= one,
                one > 0,
        {
            assert(m * m <= one * one);
        }
        lemma_small_has_no_digits(m * m / one, (n - 1) as nat);
    }
}

/// `n` digits write a number below `2^n`.
proof fn lemma_digits_fit(m: nat, n: nat)
    ensures
        log2_digits(m, n) < pow2(n),
    decreases n,
{
    lemma2_to64();
    if n > 0 {
        let i = (n - 1) as nat;
        let square = m * m / (POW_ONE as nat);
        lemma_pow2_unfold(n);
        lemma_digits_fit(square / 2, i);
        lemma_digits_fit(square, i);
    }
}

// ---------------------------------------------------------------------------
// The exponential
// ---------------------------------------------------------------------------

/// One more in the exponent doubles the power, as long as it fits.
pub proof fn law_exponential_doubles(y: u128, a: u128, b: u128)
    requires
        y + 0x1_0000_0000_0000 <= u128::MAX,
        call_ensures(exp2_q, (y,), a),
        call_ensures(exp2_q, ((y + 0x1_0000_0000_0000) as u128,), b),
    ensures
        b == if 2 * a > u128::MAX {
            u128::MAX as int
        } else {
            2 * a
        },
{
    let one = POW_ONE as nat;
    let (x, z) = (y as nat, y as nat + one);
    assert(z % one == x % one && z / one == x / one + 1);
    lemma_pow2_unfold(z / one);
    let (r, p, q) = (exp2_digits(x % one, 48), pow2(x / one), pow2(z / one));
    assert(r * q == 2 * (r * p)) by (nonlinear_arith)
        requires
            q == 2 * p,
    ;
}

/// Below one, the power is the product of the powers of the digits that are
/// set, multiplied from the first on, each product rounded down: taking the last
/// digit, `bit`, off the exponent takes its power off the product. The power of
/// nothing is one.
pub proof fn law_exponential_multiplies(
    k: nat,
    j: nat,
    y: u128,
    rest: u128,
    bit: u128,
    power: u128,
    of_rest: u128,
    of_bit: u128,
)
    requires
        j < 48,
        bit == pow2(j),
        rest == 2 * k * bit,
        y == rest + bit < 0x1_0000_0000_0000,
        call_ensures(exp2_q, (y,), power),
        call_ensures(exp2_q, (rest,), of_rest),
        call_ensures(exp2_q, (bit,), of_bit),
    ensures
        is_quotient(power as int, of_rest * of_bit, 0x1_0000_0000_0000),
        rest == 0 ==> of_rest == 0x1_0000_0000_0000,
{
    let one = POW_ONE as nat;
    let i = (48 - j) as nat;
    let (f, g, b) = (y as nat, rest as nat, bit as nat);
    lemma2_to64();
    lemma_exp2_digits_of_zero(48);
    lemma_last_digit(k, j);
    lemma_last_digit(0, j);
    assert(2 * 0 * pow2(j) == 0) by (nonlinear_arith);
    assert(g == 2 * k * pow2(j));
    lemma_exp2_digits_of_zero((i - 1) as nat);
    assert(f % one == f && f / one == 0 && g % one == g && g / one == 0);
    assert(b % one == b && b / one == 0);
    let t = TWO_POW_LUT@[i as int] as nat;
    let p = exp2_digits(g, 48);
    assert(exp2_digits(b, 48) == one * t / one);
    assert(one * t / one == t) by (nonlinear_arith)
        requires
            one > 0,
    ;
    assert(exp2_digits(f, 48) == p * t / one);
    let (x, z, u) = (exp2_digits(f, 48), exp2_digits(b, 48), pow2(0));
    assert(x * u == x && p * u == p && z * u == z) by (nonlinear_arith)
        requires
            u == 1,
    ;
    lemma_exp2_digits_range(f, 48);
    lemma_exp2_digits_range(g, 48);
    lemma_exp2_digits_range(b, 48);
    let a = p * t;
    assert((a / one) * one <= a < (a / one + 1) * one) by (nonlinear_arith)
        requires
            one > 0,
    ;
    assert(a == of_rest * of_bit);
}

/// The digits of `(2k + 1) * 2^j`: the last one set is that of `2^j`, and those
/// before it are those of `2k * 2^j`.
proof fn lemma_last_digit(k: nat, j: nat)
    requires
        j < 48,
    ensures
        ({
            let (g, f) = (2 * k * pow2(j), (2 * k + 1) * pow2(j));
            let i = (48 - j) as nat;
            &&& f == g + pow2(j)
            &&& exp2_digits(g, 48) == exp2_digits(g, (i - 1) as nat)
            &&& exp2_digits(f, 48) == exp2_digits(g, (i - 1) as nat) * (
            TWO_POW_LUT@[i as int] as nat) / (POW_ONE as nat)
        }),
{
    let b = pow2(j);
    let (g, f) = (2 * k * b, (2 * k + 1) * b);
    let i = (48 - j) as nat;
    lemma_pow2_pos(j);
    assert(f == g + b) by (nonlinear_arith)
        requires
            g == 2 * k * b,
            f == (2 * k + 1) * b,
    ;
    // The digits after the last one.
    lemma_no_digits_after(2 * k, j, (i - 1) as nat, 48);
    lemma_no_digits_after(2 * k + 1, j, i, 48);
    // The last one.
    assert(f / b == 2 * k + 1 && g / b == 2 * k) by (nonlinear_arith)
        requires
            g == (2 * k) * b,
            f == (2 * k + 1) * b,
            b > 0,
    ;
    assert((48 - i) as nat == j);
    assert(digit_set(f, i));
    // The digits before it.
    lemma_digits_agree(k, j, (i - 1) as nat);
}

/// A multiple of `2^j` has no digits set past that of `2^j`; an even one none
/// from there on.
proof fn lemma_no_digits_after(m: nat, j: nat, from: nat, to: nat)
    requires
        j < 48,
        from <= to <= 48,
        from + j >= 48 || (from + j == 47 && m % 2 == 0),
    ensures
        exp2_digits(m * pow2(j), to) == exp2_digits(m * pow2(j), from),
    decreases to,
{
    if from < to {
        lemma_no_digits_after(m, j, from, (to - 1) as nat);
        let s = (48 - to) as nat;
        let e = (j - s) as nat;
        lemma_pow2_adds(s, e);
        lemma_pow2_pos(s);
        let (x, p, q) = (m * pow2(j), pow2(s), pow2(e));
        let r = m * q;
        assert(x / p == r) by (nonlinear_arith)
            requires
                x == m * (p * q),
                r == m * q,
                p > 0,
        {
            assert(x == r * p);
        }
        if e > 0 {
            lemma_pow2_unfold(e);
            let h = m * pow2((e - 1) as nat);
            assert(r == 2 * h) by (nonlinear_arith)
                requires
                    r == m * q,
                    q == 2 * pow2((e - 1) as nat),
                    h == m * pow2((e - 1) as nat),
            ;
        } else {
            lemma2_to64();
            assert(r == m) by (nonlinear_arith)
                requires
                    r == m * q,
                    q == 1,
            ;
        }
        assert(r % 2 == 0);
        assert(!digit_set(x, to));
    }
}

/// Before the digit of `2^j`, the digits do not depend on it.
proof fn lemma_digits_agree(k: nat, j: nat, to: nat)
    requires
        j < 48,
        to + j < 48,
    ensures
        exp2_digits((2 * k + 1) * pow2(j), to) == exp2_digits(2 * k * pow2(j), to),
    decreases to,
{
    if to > 0 {
        lemma_digits_agree(k, j, (to - 1) as nat);
        let s = (48 - to) as nat;
        let e = (s - j - 1) as nat;
        lemma_pow2_unfold(j + 1);
        lemma_pow2_adds(j + 1, e);
        lemma_pow2_pos(e);
        lemma_pow2_pos(j);
        let (b, p, q) = (pow2(j), pow2(s), pow2(e));
        let (f, g) = ((2 * k + 1) * b, 2 * k * b);
        let c = 2 * b;
        assert(f == k * c + b && g == k * c) by (nonlinear_arith)
            requires
                f == (2 * k + 1) * b,
                g == 2 * k * b,
                c == 2 * b,
        ;
        let d = k / q;
        assert(f / p == d && g / p == d) by (nonlinear_arith)
            requires
                p == c * q,
                f == k * c + b,
                g == k * c,
                c == 2 * b,
                b > 0,
                q > 0,
                d == k / q,
        {
            assert(d * q <= k < (d + 1) * q);
            assert(d * p <= k * c);
            assert((k + 1) * c <= (d + 1) * p);
            assert(k * c + b < (k + 1) * c);
        }
    }
}

// ---------------------------------------------------------------------------
// The power
// ---------------------------------------------------------------------------

/// The power of a ratio is two to its scaled logarithm: with `ratio` the ratio,
/// `l` its logarithm, `e` the exponent and `y` their product, each rounded down
/// to Q48. There is none for a ratio below one, and none where a number on the
/// way, or the power, does not fit.
pub proof fn law_power_scales_the_logarithm(
    num: u128,
    den: u128,
    bps: u16,
    ratio: u128,
    l: u128,
    e: u128,
    y: u128,
    power: u128,
    r: Option<u128>,
)
    requires
        call_ensures(pow_ratio_q, (num, den, bps), r),
        0 < den <= num,
        num * 0x1_0000_0000_0000 <= u128::MAX,
        is_quotient(ratio as int, num * 0x1_0000_0000_0000, den as int),
        call_ensures(log2_q, (ratio,), l),
        is_quotient(e as int, bps * 0x1_0000_0000_0000, 10_000),
        is_quotient(y as int, l * e, 0x1_0000_0000_0000),
        call_ensures(exp2_q, (y,), power),
    ensures
        r == if l * e > u128::MAX || power == u128::MAX {
            None
        } else {
            Some(power)
        },
{
    let one = POW_ONE as nat;
    lemma_one_quotient(ratio as int, num * POW_ONE, den as int);
    lemma_one_quotient(e as int, bps * POW_ONE, 10_000);
    lemma_one_quotient(y as int, l * e, POW_ONE as int);
    assert(l as nat * (e as nat) == l * e);
    lemma_saturation(y as nat);
    assert(log2_fixed(ratio as nat) == l);
}

/// There is no power of a ratio below one, of one without a denominator, or of
/// one that does not fit.
pub proof fn law_power_needs_a_ratio(num: u128, den: u128, bps: u16, r: Option<u128>)
    requires
        call_ensures(pow_ratio_q, (num, den, bps), r),
        den == 0 || num < den || num * 0x1_0000_0000_0000 > u128::MAX,
    ensures
        r is None,
{
}

} // verus!
