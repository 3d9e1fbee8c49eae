//! How close the Q48 functions come to the real logarithm, exponential and
//! power.
//!
//! Writing `N` for `2^48`, the Q48 number `x` stands for `x / N`. The claim
//! `l / N <= log2(x / N)` reads `2^l * N^N <= x^N` once both sides are raised to
//! the power `N`; all bounds below have that form. An error of `k` in the
//! exponent is `k` units in the last place of the logarithm.

use crate::powers::{
    lemma_cancel, lemma_growth_bounds, lemma_growth_slow, lemma_growth_square, lemma_growth_upper,
    lemma_mul_le, lemma_pow_le, lemma_pow_nonneg, lemma_pow_square, lemma_pow_step, lemma_root_le,
    lemma_root_of_doubling, lemma_two_adds, lemma_two_le,
};
use crate::q48::{
    digit_set, exp2_digits, exp2_unbounded, exponent_fixed, fine_one, lemma_exp2_digits_range,
    lemma_log2_fixed_bound, lemma_mantissa_range, lemma_square_range, lemma_table_step,
    log2_digits, log2_fixed, log2_int, mantissa, pow_ratio_fixed, table, table_high, table_low,
    POW_ONE,
};
use vstd::arithmetic::power::{
    lemma1_pow, lemma_pow0, lemma_pow1, lemma_pow_adds, lemma_pow_distributes,
    lemma_pow_increases_converse, lemma_pow_multiplies, lemma_pow_positive, pow,
};
use vstd::arithmetic::power2::{
    lemma2_to64, lemma2_to64_rest, lemma_pow2, lemma_pow2_adds, lemma_pow2_pos, lemma_pow2_unfold,
    pow2,
};
use vstd::arithmetic::div_mod::{lemma_div_denominator, lemma_fundamental_div_mod};
use vstd::prelude::*;

verus! {

/// `N = 2^48` as an integer.
pub open spec fn one() -> int {
    POW_ONE as int
}

/// `N` as an exponent.
pub open spec fn scale() -> nat {
    POW_ONE as nat
}

proof fn lemma_scale()
    ensures
        pow2(48) == scale(),
        pow2(0) == 1,
        one() % 2 == 0,
        scale() == one(),
{
    lemma2_to64();
    lemma2_to64_rest();
}

// ---------------------------------------------------------------------------
// Logarithm
// ---------------------------------------------------------------------------

/// One digit of the lower bound: if `c * h * N <= m^2` and `p * N^q <= h^q`
/// then `c^q * p * N^(2q) <= m^(2q)`.
proof fn lemma_log2_lower_step(m: int, h: int, c: int, p: int, n: int, q: nat)
    requires
        0 < n,
        0 <= m,
        0 <= h,
        0 < c,
        0 <= p,
        c * h * n <= m * m,
        p * pow(n, q) <= pow(h, q),
    ensures
        pow(c, q) * p * pow(n, 2 * q) <= pow(m, 2 * q),
{
    assert(0 <= c * h * n) by (nonlinear_arith)
        requires
            0 <= h,
            0 < c,
            0 < n,
    ;
    lemma_pow_le(c * h * n, m * m, q);
    lemma_pow_distributes(c * h, n, q);
    lemma_pow_distributes(c, h, q);
    lemma_pow_square(m, q);
    lemma_pow_square(n, q);
    lemma_pow_positive(c, q);
    lemma_pow_positive(n, q);
    let (cq, nq, hq) = (pow(c, q), pow(n, q), pow(h, q));
    assert(cq * p * (nq * nq) <= cq * hq * nq) by (nonlinear_arith)
        requires
            0 < cq,
            0 < nq,
            p * nq <= hq,
    {
        assert((p * nq) * (cq * nq) <= hq * (cq * nq));
    }
}

/// The digits of a mantissa's logarithm never overstate it:
/// `2^digits * N^(2^n) <= m^(2^n)`.
proof fn lemma_log2_digits_lower(m: nat, n: nat)
    requires
        POW_ONE <= m < 2 * POW_ONE,
    ensures
        pow(2, log2_digits(m, n)) * pow(one(), pow2(n)) <= pow(m as int, pow2(n)),
    decreases n,
{
    if n == 0 {
        lemma_scale();
        lemma_pow0(2);
        lemma_pow1(one());
        lemma_pow1(m as int);
        let p = pow(2, log2_digits(m, 0));
        assert(p * one() <= m) by (nonlinear_arith)
            requires
                p == 1,
                one() <= m,
        ;
    } else {
        let k = (n - 1) as nat;
        let q = pow2(k);
        let square = m * m / scale();
        lemma_square_range(m);
        lemma_pow2_unfold(n);
        assert(square * one() <= m * m) by (nonlinear_arith)
            requires
                square == (m * m) as int / one(),
                one() > 0,
        ;
        if square >= 2 * POW_ONE {
            let h = square / 2;
            let p = pow(2, log2_digits(h, k));
            lemma_log2_digits_lower(h, k);
            lemma_pow_positive(2, log2_digits(h, k));
            assert(2 * h * one() <= square * one()) by (nonlinear_arith)
                requires
                    2 * h <= square,
                    one() > 0,
            ;
            lemma_log2_lower_step(m as int, h as int, 2, p, one(), q);
            lemma_two_adds(q, log2_digits(h, k));
        } else {
            let p = pow(2, log2_digits(square, k));
            lemma_log2_digits_lower(square, k);
            lemma_pow_positive(2, log2_digits(square, k));
            lemma_log2_lower_step(m as int, square as int, 1, p, one(), q);
            lemma1_pow(q);
        }
    }
}

/// One digit of the upper bound: if `m^2 <= c * h * (N + 1)` and
/// `h^q * N^g <= 2 * p * N^q * (N + 1)^g` then
/// `m^(2q) * N^(q + g) <= 2 * c^q * p * N^(2q) * (N + 1)^(q + g)`.
proof fn lemma_log2_upper_step(m: int, h: int, c: int, p: int, n: int, q: nat, g: nat)
    requires
        0 < n,
        0 <= m,
        0 <= h,
        0 < c,
        0 <= p,
        m * m <= c * h * (n + 1),
        pow(h, q) * pow(n, g) <= 2 * p * pow(n, q) * pow(n + 1, g),
    ensures
        pow(m, 2 * q) * pow(n, q + g) <= 2 * (pow(c, q) * p) * pow(n, 2 * q) * pow(n + 1, q + g),
{
    let v = n + 1;
    assert(0 <= m * m) by (nonlinear_arith);
    lemma_pow_le(m * m, c * h * v, q);
    lemma_pow_distributes(c * h, v, q);
    lemma_pow_distributes(c, h, q);
    lemma_pow_square(m, q);
    lemma_pow_square(n, q);
    lemma_pow_adds(n, q, g);
    lemma_pow_adds(v, q, g);
    lemma_pow_positive(c, q);
    lemma_pow_positive(n, q);
    lemma_pow_positive(n, g);
    lemma_pow_positive(v, q);
    lemma_pow_positive(v, g);
    lemma_pow_nonneg(h, q);
    let (mm, cq, hq) = (pow(m, 2 * q), pow(c, q), pow(h, q));
    let (nq, ng, vq, vg) = (pow(n, q), pow(n, g), pow(v, q), pow(v, g));
    assert(mm * (nq * ng) <= 2 * (cq * p) * (nq * nq) * (vq * vg)) by (nonlinear_arith)
        requires
            mm <= cq * hq * vq,
            hq * ng <= 2 * p * nq * vg,
            0 < cq,
            0 < nq,
            0 < ng,
            0 < vq,
            0 < vg,
    {
        assert(mm * (nq * ng) <= (cq * hq * vq) * (nq * ng));
        assert((cq * hq * vq) * (nq * ng) == (cq * vq * nq) * (hq * ng));
        assert((cq * vq * nq) * (hq * ng) <= (cq * vq * nq) * (2 * p * nq * vg));
        assert((cq * vq * nq) * (2 * p * nq * vg) == 2 * (cq * p) * (nq * nq) * (vq * vg));
    }
}

/// The digits of a mantissa's logarithm understate it by little: with
/// `g = 2^n - 1`,
/// `m^(2^n) * N^g <= 2 * 2^digits * N^(2^n) * (N + 1)^g`.
proof fn lemma_log2_digits_upper(m: nat, n: nat)
    requires
        POW_ONE <= m < 2 * POW_ONE,
    ensures
        pow2(n) >= 1,
        pow(m as int, pow2(n)) * pow(one(), (pow2(n) - 1) as nat) <= 2 * pow(
            2,
            log2_digits(m, n),
        ) * pow(one(), pow2(n)) * pow(one() + 1, (pow2(n) - 1) as nat),
    decreases n,
{
    lemma_pow2_pos(n);
    if n == 0 {
        lemma_scale();
        lemma_pow0(2);
        lemma_pow0(one());
        lemma_pow0(one() + 1);
        lemma_pow1(one());
        lemma_pow1(m as int);
    } else {
        let k = (n - 1) as nat;
        let q = pow2(k);
        let g = (q - 1) as nat;
        let square = m * m / scale();
        let (u, v) = (one(), one() + 1);
        lemma_square_range(m);
        lemma_pow2_unfold(n);
        lemma_pow2_pos(k);
        assert(m * m <= (square + 1) * u) by (nonlinear_arith)
            requires
                square == (m * m) as int / u,
                u > 0,
        ;
        assert((pow2(n) - 1) as nat == q + g);
        if square >= 2 * POW_ONE {
            let h = square / 2;
            let p = pow(2, log2_digits(h, k));
            lemma_log2_digits_upper(h, k);
            lemma_pow_positive(2, log2_digits(h, k));
            assert(m * m <= 2 * h * v) by (nonlinear_arith)
                requires
                    m * m <= (square + 1) * u,
                    square <= 2 * h + 1,
                    u <= h,
                    v == u + 1,
                    0 < u,
            {
                assert((square + 1) * u <= (2 * h + 2) * u);
                assert((2 * h + 2) * u <= 2 * h * v);
            }
            lemma_log2_upper_step(m as int, h as int, 2, p, u, q, g);
            lemma_two_adds(q, log2_digits(h, k));
        } else {
            let p = pow(2, log2_digits(square, k));
            lemma_log2_digits_upper(square, k);
            lemma_pow_positive(2, log2_digits(square, k));
            assert(m * m <= 1 * square * v) by (nonlinear_arith)
                requires
                    m * m <= (square + 1) * u,
                    u <= square,
                    v == u + 1,
                    0 < u,
            {
                assert((square + 1) * u <= square * v);
            }
            lemma_log2_upper_step(m as int, square as int, 1, p, u, q, g);
            lemma1_pow(q);
        }
    }
}

/// Halving keeps `2^log2_int * mantissa <= x < 2^log2_int * (mantissa + 1)`.
proof fn lemma_halvings(x: nat)
    ensures
        pow(2, log2_int(x)) * mantissa(x) <= x,
        x < pow(2, log2_int(x)) * (mantissa(x) + 1),
    decreases x,
{
    if x < 2 * POW_ONE {
        lemma_pow0(2);
    } else {
        let y = x / 2;
        lemma_halvings(y);
        lemma_pow_step(2, log2_int(y));
        let (p, m) = (pow(2, log2_int(y)), mantissa(y) as int);
        assert(2 * p * m <= x && x < 2 * p * (m + 1)) by (nonlinear_arith)
            requires
                p * m <= y,
                y < p * (m + 1),
                2 * y <= x < 2 * y + 2,
        ;
    }
}

/// The logarithm rounds down: `log2_fixed(x) / N <= log2(x / N)`.
pub proof fn lemma_log2_lower(x: nat)
    requires
        POW_ONE <= x,
    ensures
        pow(2, log2_fixed(x)) * pow(one(), scale()) <= pow(x as int, scale()),
{
    let (e, m) = (log2_int(x), mantissa(x));
    let d = log2_digits(m, 48);
    let big = scale();
    lemma_scale();
    lemma_mantissa_range(x);
    lemma_log2_digits_lower(m, 48);
    lemma_halvings(x);
    lemma_pow_positive(2, e);
    assert(0 <= pow(2, e) * m) by (nonlinear_arith)
        requires
            0 < pow(2, e),
            0 <= m,
    ;
    lemma_pow_le(pow(2, e) * m, x as int, big);
    lemma_pow_distributes(pow(2, e), m as int, big);
    lemma_pow_multiplies(2, e, big);
    lemma_two_adds(e * big, d);
    let (a, b, c, t) = (pow(2, e * big), pow(2, d), pow(one(), big), pow(m as int, big));
    assert(a * b * c <= a * t) by (nonlinear_arith)
        requires
            0 < a,
            b * c <= t,
    {
        assert(a * (b * c) <= a * t);
    }
}

/// The logarithm is at most four units in the last place too low:
/// `log2(x / N) <= (log2_fixed(x) + 4) / N`.
pub proof fn lemma_log2_upper(x: nat)
    requires
        POW_ONE <= x,
    ensures
        pow(x as int, scale()) <= pow(2, log2_fixed(x) + 4) * pow(one(), scale()),
{
    let (e, m) = (log2_int(x), mantissa(x));
    let d = log2_digits(m, 48);
    let big = scale();
    let (u, v) = (one(), one() + 1);
    let g = (big - 1) as nat;
    lemma_scale();
    lemma_mantissa_range(x);
    lemma_log2_digits_upper(m, 48);
    lemma_halvings(x);
    lemma_pow_positive(2, e);
    lemma_growth_square(u);
    let (ub, vb) = (pow(u, big), pow(v, big));
    lemma_pow_positive(u, big);
    lemma_pow_positive(v, big);
    lemma_pow_square(u, big);
    lemma_pow_square(v, big);
    assert((2 * u) as nat == 2 * big);
    // From exponent N - 1 to exponent N: multiply by N <= N + 1.
    lemma_pow_step(u, g);
    lemma_pow_step(v, g);
    lemma_pow_positive(2, d);
    lemma_pow_positive(v, g);
    let (mb, ug, vg, pd) = (pow(m as int, big), pow(u, g), pow(v, g), pow(2, d));
    assert(mb <= 2 * pd * vb) by (nonlinear_arith)
        requires
            mb * ug <= 2 * pd * ub * vg,
            ub == u * ug,
            vb == v * vg,
            v == u + 1,
            0 < u,
            0 < pd,
            0 < ub,
            0 < vg,
    {
        assert((mb * ug) * u <= (2 * pd * ub * vg) * u);
        assert(0 < 2 * pd * ub * vg);
        assert((2 * pd * ub * vg) * u <= (2 * pd * ub * vg) * v);
        assert((mb * ug) * u == mb * ub);
        assert((2 * pd * ub * vg) * v == (2 * pd * vb) * ub);
    }
    // x * N <= 2^e * m * (N + 1)
    let p = pow(2, e);
    assert(x * u <= p * m * v) by (nonlinear_arith)
        requires
            x < p * (m + 1),
            u <= m,
            v == u + 1,
            0 < u,
            0 < p,
    {
        assert(x * u <= p * (m + 1) * u);
        assert((m + 1) * u <= m * v);
        assert(p * ((m + 1) * u) <= p * (m * v));
    }
    assert(0 <= x * u) by (nonlinear_arith)
        requires
            0 <= x,
            0 < u,
    ;
    lemma_pow_le(x * u, p * m * v, big);
    lemma_pow_distributes(x as int, u, big);
    lemma_pow_distributes(p * m, v, big);
    lemma_pow_distributes(p, m as int, big);
    lemma_pow_multiplies(2, e, big);
    lemma_two_adds(e * big, d);
    lemma_two_adds(e * big + d, 4);
    lemma_small_powers();
    let (xb, a) = (pow(x as int, big), pow(2, e * big));
    // (1 + 1/N)^(2N) <= 8
    assert(xb <= (a * pd * 16) * ub) by (nonlinear_arith)
        requires
            xb * ub <= a * mb * vb,
            mb <= 2 * pd * vb,
            vb * vb <= 8 * (ub * ub),
            0 < a,
            0 < pd,
            0 < ub,
            0 < vb,
    {
        assert(a * mb <= a * (2 * pd * vb));
        assert((a * mb) * vb <= (a * (2 * pd * vb)) * vb);
        assert((a * (2 * pd * vb)) * vb == (2 * (a * pd)) * (vb * vb));
        assert(0 < a * pd);
        assert((2 * (a * pd)) * (vb * vb) <= (2 * (a * pd)) * (8 * (ub * ub)));
        assert((2 * (a * pd)) * (8 * (ub * ub)) == ((a * pd * 16) * ub) * ub);
    }
}

// ---------------------------------------------------------------------------
// Exponential
// ---------------------------------------------------------------------------

/// `table_low(i) <= 2^(2^-i)`.
proof fn lemma_table_low_pow(i: nat)
    requires
        i <= 48,
    ensures
        pow(table_low(i), pow2(i)) <= 2 * pow(fine_one(), pow2(i)),
    decreases i,
{
    let n = fine_one();
    if i == 0 {
        lemma_scale();
        lemma_pow1(n);
        lemma_pow1(2 * n);
    } else {
        let j = (i - 1) as nat;
        let q = pow2(j);
        lemma_table_low_pow(j);
        lemma_table_step(i);
        lemma_pow2_unfold(i);
        let (a, b) = (table_low(i), table_low(j));
        if j > 0 {
            lemma_table_step(j);
        }
        assert(0 <= a * a) by (nonlinear_arith);
        lemma_pow_square(a, q);
        lemma_pow_square(n, q);
        lemma_pow_le(a * a, b * n, q);
        lemma_pow_distributes(b, n, q);
        lemma_pow_positive(n, q);
        lemma_pow_nonneg(b, q);
        lemma_mul_le(pow(b, q), 2 * pow(n, q), pow(n, q), pow(n, q));
        let p = pow(n, q);
        assert((2 * p) * p == 2 * (p * p)) by (nonlinear_arith);
    }
}

/// `2^(2^-i) <= table_high(i)`.
proof fn lemma_table_high_pow(i: nat)
    requires
        i <= 48,
    ensures
        2 * pow(fine_one(), pow2(i)) <= pow(table_high(i), pow2(i)),
    decreases i,
{
    let n = fine_one();
    if i == 0 {
        lemma_scale();
        lemma_pow1(n);
        lemma_pow1(2 * n);
    } else {
        let j = (i - 1) as nat;
        let q = pow2(j);
        lemma_table_high_pow(j);
        lemma_table_step(i);
        lemma_pow2_unfold(i);
        let (a, b) = (table_high(i), table_high(j));
        if j > 0 {
            lemma_table_step(j);
        }
        assert(0 <= b * n) by (nonlinear_arith)
            requires
                0 <= b,
                0 <= n,
        ;
        lemma_pow_square(a, q);
        lemma_pow_square(n, q);
        lemma_pow_le(b * n, a * a, q);
        lemma_pow_distributes(b, n, q);
        lemma_pow_positive(n, q);
        lemma_mul_le(2 * pow(n, q), pow(b, q), pow(n, q), pow(n, q));
        let p = pow(n, q);
        assert((2 * p) * p == 2 * (p * p)) by (nonlinear_arith);
    }
}

/// Small powers of two.
proof fn lemma_small_powers()
    ensures
        pow(2, 1) == 2,
        pow(2, 3) == 8,
        pow(2, 4) == 16,
        pow(2, 6) == 64,
{
    lemma_pow1(2);
    lemma2_to64();
    lemma_pow2(3);
    lemma_pow2(4);
    lemma_pow2(6);
}

/// `65536^N * x^N <= 65536^N * y` gives `x^N <= y`.
proof fn lemma_drop_fine_bits(x: int, y: int, e: nat)
    requires
        pow(65_536 * x, e) <= pow(65_536, e) * y,
    ensures
        pow(x, e) <= y,
{
    lemma_pow_distributes(65_536, x, e);
    lemma_pow_positive(65_536, e);
    let (c, p) = (pow(65_536, e), pow(x, e));
    assert(p <= y) by (nonlinear_arith)
        requires
            c * p <= c * y,
            0 < c,
    ;
}

/// The table's entries against the real `2^(2^-i)`, raised to the power `N`:
/// one unit in the last place too high at most, one too low.
proof fn lemma_table_pow(i: nat)
    requires
        1 <= i <= 48,
    ensures
        pow(table(i), scale()) <= pow(2, pow2((48 - i) as nat) + 1) * pow(one(), scale()),
        pow(2, pow2((48 - i) as nat)) * pow(one(), scale()) <= pow(table(i), scale()) * 2,
{
    let n = one();
    let fine = fine_one();
    let big = scale();
    let d = pow2((48 - i) as nat);
    let q = pow2(i);
    let (t, lo, hi) = (table(i), table_low(i), table_high(i));
    let ft = 65_536 * t;
    let h = 7 * (n / 4);
    lemma_scale();
    lemma_small_powers();
    lemma_table_step(i);
    lemma_pow2_adds(i, (48 - i) as nat);
    assert(q * d == big);
    lemma_growth_slow(n);
    lemma_pow_positive(h, big);
    lemma_pow_positive(n, big);
    lemma_pow_positive(fine, q);
    lemma_pow_positive(2, d);
    lemma_pow_multiplies(fine, q, d);
    lemma_pow_distributes(65_536, n, big);
    lemma_pow_positive(65_536, big);
    lemma_pow_distributes(2, pow(fine, q), d);
    lemma_two_adds(d, 1);
    let (hb, kb) = (pow(h, big), pow(h + 1, big));
    let (fb, tb) = (pow(fine, big), pow(ft, big));
    let (c, nb, pd) = (pow(65_536, big), pow(n, big), pow(2, d));
    assert(fb == c * nb);
    lemma_pow_positive(h + 1, big);
    lemma_pow_positive(ft, big);
    // Upper: 65536 * t * h <= lo * (h + 1).
    lemma_table_low_pow(i);
    lemma_pow_nonneg(lo, q);
    lemma_pow_le(pow(lo, q), 2 * pow(fine, q), d);
    lemma_pow_multiplies(lo, q, d);
    let lb = pow(lo, big);
    lemma_pow_nonneg(lo, big);
    assert(lb <= pd * fb);
    assert(ft * h <= lo * (h + 1)) by (nonlinear_arith)
        requires
            ft <= lo + 32_771,
            h == 492_581_209_243_648,
            lo > 18_446_744_073_709_551_616,
    ;
    lemma_mul_le(0, ft, 0, h);
    lemma_pow_le(ft * h, lo * (h + 1), big);
    lemma_pow_distributes(ft, h, big);
    lemma_pow_distributes(lo, h + 1, big);
    assert(tb <= c * (pd * 2 * nb)) by (nonlinear_arith)
        requires
            tb * hb <= lb * kb,
            kb <= 2 * hb,
            lb <= pd * (c * nb),
            0 <= lb,
            0 < hb,
    {
        assert(lb * kb <= lb * (2 * hb));
        assert(tb * hb <= (2 * lb) * hb);
        assert(tb <= 2 * lb);
        assert(2 * (pd * (c * nb)) == c * (pd * 2 * nb));
    }
    lemma_drop_fine_bits(t, pd * 2 * nb, big);
    // Lower: hi * h <= 65536 * t * (h + 1).
    lemma_table_high_pow(i);
    lemma_pow_le(2 * pow(fine, q), pow(hi, q), d);
    lemma_pow_multiplies(hi, q, d);
    let gb = pow(hi, big);
    assert(pd * fb <= gb);
    assert(hi * h <= ft * (h + 1)) by (nonlinear_arith)
        requires
            hi <= ft + 32_770,
            h == 492_581_209_243_648,
            ft > 18_446_744_073_709_551_616,
    ;
    lemma_mul_le(0, hi, 0, h);
    lemma_pow_le(hi * h, ft * (h + 1), big);
    lemma_pow_distributes(hi, h, big);
    lemma_pow_distributes(ft, h + 1, big);
    lemma_pow_distributes(65_536, t, big);
    let sb = pow(t, big);
    assert(pd * nb <= sb * 2) by (nonlinear_arith)
        requires
            gb * hb <= tb * kb,
            kb <= 2 * hb,
            pd * (c * nb) <= gb,
            tb == c * sb,
            0 < tb,
            0 < hb,
            0 < c,
    {
        assert(tb * kb <= tb * (2 * hb));
        assert(gb * hb <= (2 * tb) * hb);
        assert(gb <= 2 * tb);
        assert(c * (pd * nb) <= c * (sb * 2));
    }
}

/// `f` with all but its first `i` fractional digits cleared.
pub open spec fn leading(f: nat, i: nat) -> nat {
    (f / pow2((48 - i) as nat)) * pow2((48 - i) as nat)
}

proof fn lemma_leading(f: nat, i: nat)
    requires
        1 <= i <= 48,
    ensures
        leading(f, i) == leading(f, (i - 1) as nat) + if digit_set(f, i) {
            pow2((48 - i) as nat)
        } else {
            0
        },
{
    let a = pow2((48 - i) as nat) as int;
    lemma_pow2_unfold((49 - i) as nat);
    lemma_pow2_pos((48 - i) as nat);
    assert(((48 - (i - 1)) as nat) == ((49 - i) as nat));
    lemma_div_denominator(f as int, a, 2);
    let (x, y) = (f as int / a, f as int / (2 * a));
    assert(a * 2 == 2 * a);
    assert(y == x / 2);
    let b = x % 2;
    assert(x * a == y * (2 * a) + b * a) by (nonlinear_arith)
        requires
            x == 2 * y + b,
    ;
    assert(b == 1 ==> b * a == a) by (nonlinear_arith);
    assert(b == 0 ==> b * a == 0) by (nonlinear_arith);
}

proof fn lemma_leading_ends(f: nat)
    requires
        f < POW_ONE,
    ensures
        leading(f, 0) == 0,
        leading(f, 48) == f,
{
    lemma_scale();
    let (a, b) = (pow2(48), pow2(0));
    assert(f / a == 0) by (nonlinear_arith)
        requires
            f < a,
            0 <= f,
    ;
    assert((f / b) * b == f) by (nonlinear_arith)
        requires
            b == 1,
    ;
}

/// The product of table entries against the real power of two: at most `i`
/// units in the last place too high and `3 * i` too low.
proof fn lemma_exp2_digits_pow(f: nat, i: nat)
    requires
        f < POW_ONE,
        i <= 48,
    ensures
        pow(exp2_digits(f, i) as int, scale()) <= pow(2, leading(f, i) + i) * pow(
            one(),
            scale(),
        ),
        pow(2, leading(f, i)) * pow(one(), scale()) <= pow(exp2_digits(f, i) as int, scale()) * pow(
            2,
            3 * i,
        ),
    decreases i,
{
    let n = one();
    let big = scale();
    let nb = pow(n, big);
    lemma_pow_positive(n, big);
    if i == 0 {
        lemma_leading_ends(f);
        lemma_pow0(2);
        let p = pow(2, 0);
        assert(p * nb == nb && nb * p == nb) by (nonlinear_arith)
            requires
                p == 1,
        ;
    } else {
        let j = (i - 1) as nat;
        let r = exp2_digits(f, j) as int;
        let rb = pow(r, big);
        let lead = leading(f, j);
        lemma_exp2_digits_pow(f, j);
        lemma_leading(f, i);
        lemma_exp2_digits_range(f, j);
        lemma_pow_positive(r, big);
        lemma_two_adds(3 * j, 3);
        lemma_small_powers();
        if digit_set(f, i) {
            let t = table(i);
            let d = pow2((48 - i) as nat);
            let u = exp2_digits(f, i) as int;
            lemma_table_step(i);
            lemma_table_pow(i);
            lemma_exp2_digits_range(f, i);
            lemma_growth_bounds(n);
            lemma_scale();
            lemma_pow_positive(t, big);
            lemma_pow_positive(u, big);
            let tb = pow(t, big);
            let ub = pow(u, big);
            let vb = pow(n + 1, big);
            assert(u * n <= r * t && r * t <= u * (n + 1)) by (nonlinear_arith)
                requires
                    u == (r * t) / n,
                    n > 0,
                    u >= n,
            ;
            lemma_pow_distributes(u, n, big);
            lemma_pow_distributes(r, t, big);
            lemma_pow_distributes(u, n + 1, big);
            assert(0 <= u * n && 0 <= r * t) by (nonlinear_arith)
                requires
                    0 < u,
                    0 < n,
                    0 < r,
                    0 < t,
            ;
            lemma_pow_le(u * n, r * t, big);
            lemma_pow_le(r * t, u * (n + 1), big);
            // Upper.
            lemma_two_adds(lead + j, d + 1);
            assert(lead + j + (d + 1) == leading(f, i) + i);
            let (pa, pb) = (pow(2, lead + j), pow(2, d + 1));
            lemma_mul_le(rb, pa * nb, tb, pb * nb);
            assert((pa * nb) * (pb * nb) == (pa * pb * nb) * nb) by (nonlinear_arith);
            lemma_cancel(ub, pa * pb * nb, nb);
            // Lower.
            lemma_two_adds(lead, d);
            let (pl, pd, pj) = (pow(2, lead), pow(2, d), pow(2, 3 * j));
            assert((pl * pd) * nb <= ub * (pj * 8)) by (nonlinear_arith)
                requires
                    pl * nb <= rb * pj,
                    pd * nb <= tb * 2,
                    rb * tb <= ub * vb,
                    vb <= 4 * nb,
                    0 < pl,
                    0 < pd,
                    0 < pj,
                    0 < nb,
                    0 < rb,
                    0 < tb,
                    0 < ub,
            {
                assert((pl * nb) * (pd * nb) <= (rb * pj) * (tb * 2));
                assert((rb * pj) * (tb * 2) == (rb * tb) * (2 * pj));
                assert((rb * tb) * (2 * pj) <= (ub * vb) * (2 * pj));
                assert((ub * vb) * (2 * pj) == vb * (ub * 2 * pj));
                assert(0 < ub * 2 * pj);
                assert(vb * (ub * 2 * pj) <= (4 * nb) * (ub * 2 * pj));
                assert((pl * nb) * (pd * nb) == ((pl * pd) * nb) * nb);
                assert((4 * nb) * (ub * 2 * pj) == (ub * (pj * 8)) * nb);
            }
        } else {
            lemma_two_le(lead + j, lead + i);
            lemma_mul_le(pow(2, lead + j), pow(2, lead + i), nb, nb);
            lemma_two_le(3 * j, 3 * i);
            lemma_mul_le(rb, rb, pow(2, 3 * j), pow(2, 3 * i));
        }
    }
}

/// The exponential is at most 48 units in the last place too high.
pub proof fn lemma_exp2_upper(y: nat)
    ensures
        pow(exp2_unbounded(y) as int, scale()) <= pow(2, y + 48) * pow(one(), scale()),
{
    let n = one();
    let big = scale();
    let (w, f) = (y / big, y % big);
    let r = exp2_digits(f, 48) as int;
    lemma_exp2_digits_pow(f, 48);
    lemma_leading_ends(f);
    lemma_exp2_digits_range(f, 48);
    lemma_pow2(w);
    lemma_pow2_pos(w);
    let p = pow(2, w);
    assert(0 <= r * p) by (nonlinear_arith)
        requires
            0 <= r,
            0 < p,
    ;
    lemma_pow_le(exp2_unbounded(y) as int, r * p, big);
    lemma_pow_distributes(r, p, big);
    lemma_pow_multiplies(2, w, big);
    lemma_pow_positive(2, w * big);
    lemma_two_adds(w * big, f + 48);
    lemma_fundamental_div_mod(y as int, big as int);
    assert(w * big + (f + 48) == y + 48) by (nonlinear_arith)
        requires
            y == big * w + f,
    ;
    let (a, b, nb) = (pow(2, w * big), pow(2, f + 48), pow(n, big));
    lemma_pow_nonneg(r, big);
    lemma_mul_le(pow(r, big), b * nb, a, a);
    assert((b * nb) * a == (a * b) * nb) by (nonlinear_arith);
}

/// The exponential is at most 144 units in the last place too low.
pub proof fn lemma_exp2_lower(y: nat)
    ensures
        pow(2, y) * pow(one(), scale()) <= pow(exp2_unbounded(y) as int, scale()) * pow(2, 144),
{
    let n = one();
    let big = scale();
    let (w, f) = (y / big, y % big);
    let r = exp2_digits(f, 48) as int;
    lemma_exp2_digits_pow(f, 48);
    lemma_leading_ends(f);
    lemma_exp2_digits_range(f, 48);
    lemma_pow2(w);
    lemma_pow2_pos(w);
    let p = pow(2, w);
    assert(exp2_unbounded(y) == r * p);
    lemma_pow_distributes(r, p, big);
    lemma_pow_multiplies(2, w, big);
    lemma_pow_positive(2, w * big);
    lemma_two_adds(w * big, f);
    lemma_fundamental_div_mod(y as int, big as int);
    assert(w * big + f == y) by (nonlinear_arith)
        requires
            y == big * w + f,
    ;
    let (a, b, nb, c) = (pow(2, w * big), pow(2, f), pow(n, big), pow(2, 144));
    let rb = pow(r, big);
    lemma_pow_positive(2, f);
    lemma_pow_positive(n, big);
    assert(0 <= b * nb) by (nonlinear_arith)
        requires
            0 < b,
            0 < nb,
    ;
    lemma_mul_le(b * nb, rb * c, a, a);
    assert((b * nb) * a == (a * b) * nb) by (nonlinear_arith);
    assert((rb * c) * a == (rb * a) * c) by (nonlinear_arith);
}

// ---------------------------------------------------------------------------
// Power
// ---------------------------------------------------------------------------

/// For an exponent of less than one and a ratio barely above one, the product
/// of table entries adds up: `10 * (exp2 - N) <= 7 * f + 9`.
proof fn lemma_exp2_digits_small(f: nat, i: nat)
    requires
        f < 32_768,
        i <= 48,
    ensures
        exp2_digits(f, i) >= POW_ONE,
        i <= 33 ==> exp2_digits(f, i) == POW_ONE,
        10 * (exp2_digits(f, i) - POW_ONE) <= 7 * leading(f, i) + (if i <= 44 {
            0int
        } else if i == 45 {
            4
        } else if i <= 47 {
            6
        } else {
            9
        }),
    decreases i,
{
    let n = one();
    lemma_exp2_digits_range(f, i);
    if i == 0 {
        lemma_leading_ends(f);
    } else {
        let j = (i - 1) as nat;
        lemma_exp2_digits_small(f, j);
        lemma_leading(f, i);
        lemma_leading_below(f, j);
        lemma2_to64();
        let d = pow2((48 - i) as nat);
        if i <= 33 {
            assert(!digit_set(f, i)) by {
                lemma_pow2_adds((33 - i) as nat, 15);
                lemma_pow2_pos((33 - i) as nat);
                let e = pow2((33 - i) as nat);
                assert(e * 32_768 >= 32_768) by (nonlinear_arith)
                    requires
                        e >= 1,
                ;
                assert(f / d == 0) by (nonlinear_arith)
                    requires
                        0 <= f < d,
                ;
            }
        } else if digit_set(f, i) {
            let r = exp2_digits(f, j) as int;
            let (a, c) = (r - n, table(i) - n);
            assert(0 <= c <= 12_000 && 0 <= a <= 24_000);
            assert(r * table(i) / n == n + a + c) by (nonlinear_arith)
                requires
                    r == n + a,
                    table(i) == n + c,
                    0 <= a <= 24_000,
                    0 <= c <= 12_000,
                    n == 281_474_976_710_656,
            {
                assert(0 <= a * c <= 24_000 * 12_000);
                assert(r * table(i) == n * (n + a + c) + a * c);
            }
        }
    }
}

/// Clearing digits does not increase a number.
proof fn lemma_leading_below(f: nat, i: nat)
    requires
        i <= 48,
    ensures
        leading(f, i) <= f,
{
    let d = pow2((48 - i) as nat);
    lemma_pow2_pos((48 - i) as nat);
    assert((f / d) * d <= f) by (nonlinear_arith)
        requires
            d > 0,
            f >= 0,
    ;
}

/// A ratio that is `k` units above one has a logarithm of at most
/// `k / ln 2`: `181701 * l <= 262144 * k`.
proof fn lemma_log2_of_small_excess(k: nat, l: nat)
    requires
        pow(2, l) * pow(one(), scale()) <= pow(one() + k, scale()),
    ensures
        181_701 * l <= 262_144 * k,
{
    let n = one();
    let big = scale();
    let q = pow2(30);
    lemma_scale();
    lemma2_to64();
    // (1 + 181702/N)^(2^30) <= 2
    let lo = n + 181_702;
    lemma_table_low_pow(30);
    lemma_table_step(30);
    assert(65_536 * lo <= table_low(30));
    lemma_pow_le(65_536 * lo, table_low(30), q);
    lemma_pow_distributes(65_536, n, q);
    let nn = pow(n, q);
    assert(pow(65_536 * lo, q) <= pow(65_536, q) * (2 * nn)) by {
        let c = pow(65_536, q);
        assert(2 * (c * nn) == c * (2 * nn)) by (nonlinear_arith);
    }
    lemma_drop_fine_bits(lo, 2 * nn, q);
    // (1 + 1/N)^181701 <= 1 + 181702/N
    let c: nat = 181_701;
    lemma_growth_upper(n, c);
    let (x, y) = (pow(n + 1, c), pow(n, c));
    lemma_pow_positive(n + 1, c);
    lemma_pow_positive(n, c);
    assert(x * n <= y * lo) by (nonlinear_arith)
        requires
            x * (n - c) <= y * n,
            lo == n + 181_702,
            c == 181_701,
            n == 281_474_976_710_656,
            0 < x,
            0 < y,
    {
        assert(n * n <= (n - c) * lo);
        assert(x * (n * n) <= x * ((n - c) * lo));
        assert((x * (n - c)) * lo <= (y * n) * lo);
        assert((x * n) * n <= (y * lo) * n);
    }
    // Raise to 2^30: (1 + 1/N)^(181701 * 2^30) <= 2.
    let e = c * q;
    assert(0 <= x * n) by (nonlinear_arith)
        requires
            0 < x,
            0 < n,
    ;
    lemma_pow_le(x * n, y * lo, q);
    lemma_pow_distributes(x, n, q);
    lemma_pow_distributes(y, lo, q);
    lemma_pow_multiplies(n + 1, c, q);
    lemma_pow_multiplies(n, c, q);
    let (xe, ye, nq, lq) = (pow(n + 1, e), pow(n, e), pow(n, q), pow(lo, q));
    lemma_pow_positive(n, e);
    lemma_pow_positive(n, q);
    lemma_pow_nonneg(lo, q);
    lemma_mul_le(ye, ye, lq, 2 * nq);
    assert(ye * (2 * nq) == (2 * ye) * nq) by (nonlinear_arith);
    lemma_cancel(xe, 2 * ye, nq);
    // (N + k)/N <= ((N + 1)/N)^k
    lemma_growth_lower_multiple(n, k);
    // 2^(181701 * l) <= ((N + k)/N)^(N * 181701) <= 2^(k * 2^18)
    let m: nat = 262_144 * k;
    lemma_pow_positive(2, l);
    lemma_pow_positive(n, big);
    let (lhs, rhs) = (pow(2, l) * pow(n, big), pow(n + k, big));
    assert(0 <= lhs) by (nonlinear_arith)
        requires
            lhs == pow(2, l) * pow(n, big),
            0 < pow(2, l),
            0 < pow(n, big),
    ;
    lemma_pow_le(lhs, rhs, c);
    lemma_pow_distributes(pow(2, l), pow(n, big), c);
    lemma_pow_multiplies(2, l, c);
    lemma_pow_multiplies(n, big, c);
    lemma_pow_multiplies(n + k, big, c);
    let bc = big * c;
    // (N + k)^bc * N^(k * bc) <= (N + 1)^(k * bc) * N^bc
    let (nk, n1, n0) = (n + k, pow(n + 1, k), pow(n, k));
    lemma_pow_positive(n, k);
    assert(0 <= nk * n0) by (nonlinear_arith)
        requires
            0 < nk,
            0 < n0,
    ;
    lemma_pow_le(nk * n0, n1 * n, bc);
    lemma_pow_distributes(nk, n0, bc);
    lemma_pow_distributes(n1, n, bc);
    lemma_pow_multiplies(n, k, bc);
    lemma_pow_multiplies(n + 1, k, bc);
    // (N + 1)^(k * bc) <= 2^m * N^(k * bc), as k * bc = e * m.
    assert(k * bc == e * m) by (nonlinear_arith)
        requires
            bc == big * c,
            e == c * q,
            m == 262_144 * k,
            big == 281_474_976_710_656,
            q == 1_073_741_824,
    ;
    lemma_pow_positive(n + 1, e);
    lemma_pow_le(xe, 2 * ye, m);
    lemma_pow_distributes(2, ye, m);
    lemma_pow_multiplies(n + 1, e, m);
    lemma_pow_multiplies(n, e, m);
    let (a, b, g, h) = (pow(2, l * c), pow(n, bc), pow(n, k * bc), pow(2, m));
    let (s, t) = (pow(nk, bc), pow(n + 1, k * bc));
    lemma_pow_positive(n, bc);
    lemma_pow_positive(n, k * bc);
    // a * b <= s, s * g <= t * b, t <= h * g
    assert(a <= h) by (nonlinear_arith)
        requires
            a * b <= s,
            s * g <= t * b,
            t <= h * g,
            0 < b,
            0 < g,
    {
        assert((a * b) * g <= s * g);
        assert(t * b <= (h * g) * b);
        assert(a * (b * g) <= h * (b * g));
        assert(0 < b * g);
    }
    lemma_pow_increases_converse(2, l * c, m);
}

/// `(N + k) * N^k <= (N + 1)^k * N`: Bernoulli's inequality.
proof fn lemma_growth_lower_multiple(n: int, k: nat)
    requires
        0 < n,
    ensures
        (n + k) * pow(n, k) <= pow(n + 1, k) * n,
{
    crate::powers::lemma_growth_lower(n, k);
    let p = pow(n, k);
    assert((n + k) * p == p * (n + k)) by (nonlinear_arith);
}

/// With an exponent of at most 0.99 the power never exceeds the ratio itself:
/// `exp2(0.99 * log2(ratio)) <= ratio`, in the rounded arithmetic.
proof fn lemma_power_below_ratio(ratio: nat, bps: u16)
    requires
        POW_ONE <= ratio,
        bps <= 9_900,
    ensures
        exp2_unbounded(log2_fixed(ratio) * exponent_fixed(bps) / scale()) <= ratio,
{
    let n = one();
    let big = scale();
    let l = log2_fixed(ratio);
    let b = exponent_fixed(bps);
    let y = l * b / big;
    lemma_scale();
    lemma_log2_lower(ratio);
    // 10000 * y <= 9900 * l
    assert(10_000 * b <= 9_900 * n) by {
        assert(bps * POW_ONE <= 9_900 * POW_ONE) by (nonlinear_arith)
            requires
                bps <= 9_900,
        ;
    }
    assert(10_000 * y <= 9_900 * l) by (nonlinear_arith)
        requires
            y == (l * b) as int / n,
            10_000 * b <= 9_900 * n,
            n > 0,
            l >= 0,
    {
        assert(y * n <= l * b);
        assert(10_000 * (l * b) == l * (10_000 * b));
        assert(l * (10_000 * b) <= l * (9_900 * n));
        assert((10_000 * y) * n <= (9_900 * l) * n);
    }
    if l >= 28_800 {
        lemma_exp2_upper(y);
        lemma_two_le(y + 48, l);
        lemma_pow_positive(n, big);
        lemma_mul_le(pow(2, y + 48), pow(2, l), pow(n, big), pow(n, big));
        lemma_root_le(exp2_unbounded(y) as int, ratio as int, big);
    } else {
        let k = (ratio - n) as nat;
        lemma_log2_of_small_excess(k, l);
        assert(y < 32_768);
        lemma_exp2_digits_small(y, 48);
        lemma_leading_ends(y);
        assert(y / big == 0 && y % big == y) by (nonlinear_arith)
            requires
                0 <= y < big,
        ;
        lemma_scale();
        let r = exp2_digits(y, 48) as int;
        assert(r * pow2(0) == r) by (nonlinear_arith)
            requires
                pow2(0) == 1,
        ;
    }
}

/// Minting with a backing of at most 99% never outpaces the vault: the growth
/// factor is at least one and at most `num / den`.
pub proof fn lemma_factor_range(num: nat, den: nat, bps: u16)
    requires
        pow_ratio_fixed(num, den, bps) is Some,
        bps <= 9_900,
    ensures
        ({
            let f = pow_ratio_fixed(num, den, bps)->0;
            &&& POW_ONE <= f
            &&& f * den <= num * POW_ONE
        }),
{
    let n = one();
    let f = pow_ratio_fixed(num, den, bps)->0 as int;
    let ratio = num * n / (den as int);
    assert(n <= ratio && ratio * den <= num * n) by (nonlinear_arith)
        requires
            ratio == num * n / (den as int),
            den > 0,
            num >= den,
            n > 0,
    {
        assert(num * n >= den * n);
    }
    lemma_power_below_ratio(ratio as nat, bps);
    lemma_exp2_at_least_one(log2_fixed(ratio as nat) * exponent_fixed(bps) / scale());
    assert(f * den <= ratio * den) by (nonlinear_arith)
        requires
            f <= ratio,
            0 < den,
    ;
}

/// Two to a non-negative power is at least one.
pub proof fn lemma_exp2_at_least_one(y: nat)
    ensures
        POW_ONE <= exp2_unbounded(y),
{
    let (w, f) = (y / scale(), y % scale());
    lemma_exp2_digits_range(f, 48);
    lemma_pow2_pos(w);
    let (r, p) = (exp2_digits(f, 48), pow2(w));
    assert(r * p >= r) by (nonlinear_arith)
        requires
            p >= 1,
    ;
}

/// The growth factor is never below one.
pub proof fn lemma_factor_at_least_one(num: nat, den: nat, bps: u16)
    requires
        pow_ratio_fixed(num, den, bps) is Some,
    ensures
        POW_ONE <= pow_ratio_fixed(num, den, bps)->0,
{
    let ratio = (num * POW_ONE / (den as int)) as nat;
    lemma_exp2_at_least_one(log2_fixed(ratio) * exponent_fixed(bps) / (POW_ONE as nat));
}

/// Denominator of the exponent, in basis points.
pub open spec fn bps_unit() -> nat {
    10_000
}

/// `a <= b` up to `k` steps of relative size `2^-48`:
/// `a <= b * (1 + 1/N)^k`, multiplied out.
pub open spec fn at_most_within(a: int, b: int, k: nat) -> bool {
    a * pow(one(), k) <= b * pow(one() + 1, k)
}

/// `10000 * y` against `l * bps`, for `y = l * exponent_fixed(bps) / N`.
proof fn lemma_scaled_log(l: nat, bps: u16)
    requires
        l < 80 * POW_ONE,
    ensures
        ({
            let y = l * exponent_fixed(bps) / scale();
            &&& 10_000 * y <= l * bps
            &&& l * bps <= 10_000 * (y + 81)
        }),
{
    let n = one();
    let b = exponent_fixed(bps) as int;
    let y = l * b / n;
    let top = bps * n;
    assert(top == 10_000 * b + top % 10_000);
    assert(10_000 * y <= l * bps) by (nonlinear_arith)
        requires
            y == (l * b) / n,
            10_000 * b <= bps * n,
            n > 0,
            l >= 0,
    {
        assert(y * n <= l * b);
        assert(l * (10_000 * b) <= l * (bps * n));
        assert((10_000 * y) * n <= (l * bps) * n);
    }
    assert(l * bps <= 10_000 * (y + 81)) by (nonlinear_arith)
        requires
            y == (l * b) / n,
            bps * n <= 10_000 * b + 9_999,
            n > 0,
            0 <= l < 80 * n,
    {
        assert(l * b <= (y + 1) * n);
        assert(l * (bps * n) <= l * (10_000 * b + 9_999));
        assert(l * (10_000 * b + 9_999) == 10_000 * (l * b) + 9_999 * l);
        assert((l * bps) * n <= 10_000 * ((y + 1) * n) + 9_999 * (80 * n));
        assert(10_000 * ((y + 1) * n) + 9_999 * (80 * n) <= (10_000 * (y + 81)) * n);
    }
}

/// The logarithm of the ratio against the ratio: `2^l * den^N <= num^N` and
/// `num^N <= 2^(l + 6) * den^N`.
proof fn lemma_ratio_log(num: nat, den: nat)
    requires
        0 < den <= num,
    ensures
        ({
            let l = log2_fixed((num * one() / (den as int)) as nat);
            &&& pow(2, l) * pow(den as int, scale()) <= pow(num as int, scale())
            &&& pow(num as int, scale()) <= pow(2, l + 6) * pow(den as int, scale())
        }),
{
    let n = one();
    let big = scale();
    let ratio = num * n / (den as int);
    let l = log2_fixed(ratio as nat);
    lemma_scale();
    assert(n <= ratio && ratio * den <= num * n && num * n <= (ratio + 1) * den) by (nonlinear_arith)
        requires
            ratio == num * n / (den as int),
            den > 0,
            num >= den,
            n > 0,
    {
        assert(num * n >= den * n);
    }
    lemma_log2_lower(ratio as nat);
    lemma_log2_upper(ratio as nat);
    lemma_growth_bounds(n);
    lemma_pow_positive(n, big);
    lemma_pow_positive(den as int, big);
    lemma_pow_positive(ratio, big);
    lemma_pow_positive(2, l);
    let (nb, db, rb, vb) = (
        pow(n, big),
        pow(den as int, big),
        pow(ratio, big),
        pow(n + 1, big),
    );
    let mb = pow(num as int, big);
    let p = pow(2, l);
    // Lower.
    assert(0 <= ratio * den) by (nonlinear_arith)
        requires
            0 <= ratio,
            0 < den,
    ;
    lemma_pow_le(ratio * den, num * n, big);
    lemma_pow_distributes(ratio, den as int, big);
    lemma_pow_distributes(num as int, n, big);
    assert(p * db <= mb) by (nonlinear_arith)
        requires
            p * nb <= rb,
            rb * db <= mb * nb,
            0 < nb,
            0 < db,
    {
        assert((p * nb) * db <= rb * db);
        assert((p * db) * nb <= mb * nb);
    }
    // Upper: num * N * N <= ratio * (N + 1) * den.
    assert(num * n * n <= ratio * (n + 1) * den) by (nonlinear_arith)
        requires
            num * n <= (ratio + 1) * den,
            n <= ratio,
            0 < den,
            0 < n,
    {
        assert(num * n * n <= (ratio + 1) * den * n);
        assert((ratio + 1) * n <= ratio * (n + 1));
        assert(((ratio + 1) * n) * den <= (ratio * (n + 1)) * den);
    }
    assert(0 <= num * n * n) by (nonlinear_arith)
        requires
            0 <= num,
            0 < n,
    ;
    lemma_pow_le(num * n * n, ratio * (n + 1) * den, big);
    lemma_pow_distributes(num * n, n, big);
    lemma_pow_distributes(ratio * (n + 1), den as int, big);
    lemma_pow_distributes(ratio, n + 1, big);
    lemma_two_adds(l, 4);
    lemma_two_adds(l, 6);
    lemma_small_powers();
    assert(mb <= (p * 64) * db) by (nonlinear_arith)
        requires
            mb * nb * nb <= rb * vb * db,
            rb <= (p * 16) * nb,
            vb <= 4 * nb,
            0 < nb,
            0 < db,
            0 < rb,
            0 < p,
            0 <= vb,
    {
        assert(rb * vb <= rb * (4 * nb));
        assert(rb * (4 * nb) <= ((p * 16) * nb) * (4 * nb));
        assert((rb * vb) * db <= (((p * 16) * nb) * (4 * nb)) * db);
        assert((((p * 16) * nb) * (4 * nb)) * db == ((p * 64) * db) * (nb * nb));
        assert(mb * (nb * nb) <= ((p * 64) * db) * (nb * nb));
        assert(0 < nb * nb);
    }
}

/// Regrouping used by the two bounds on the factor: raising a comparison of
/// `N`-th powers to the power `e`.
proof fn lemma_raise(a: int, p: nat, b: int, e: nat)
    requires
        0 <= a,
        0 <= b,
        pow(a, scale()) <= pow(2, p) * pow(b, scale()),
    ensures
        pow(pow(a, e), scale()) <= pow(2, p * e) * pow(pow(b, e), scale()),
{
    let big = scale();
    lemma_pow_nonneg(a, big);
    lemma_pow_le(pow(a, big), pow(2, p) * pow(b, big), e);
    lemma_pow_distributes(pow(2, p), pow(b, big), e);
    lemma_pow_multiplies(2, p, e);
    lemma_pow_multiplies(a, big, e);
    lemma_pow_multiplies(a, e, big);
    lemma_pow_multiplies(b, big, e);
    lemma_pow_multiplies(b, e, big);
    assert(big * e == e * big) by (nonlinear_arith);
}

/// The mirror image of `lemma_raise`.
proof fn lemma_raise_lower(a: int, p: nat, b: int, e: nat)
    requires
        0 <= a,
        0 <= b,
        pow(2, p) * pow(b, scale()) <= pow(a, scale()),
    ensures
        pow(2, p * e) * pow(pow(b, e), scale()) <= pow(pow(a, e), scale()),
{
    let big = scale();
    lemma_pow_nonneg(b, big);
    lemma_pow_positive(2, p);
    assert(0 <= pow(2, p) * pow(b, big)) by (nonlinear_arith)
        requires
            0 < pow(2, p),
            0 <= pow(b, big),
    ;
    lemma_pow_le(pow(2, p) * pow(b, big), pow(a, big), e);
    lemma_pow_distributes(pow(2, p), pow(b, big), e);
    lemma_pow_multiplies(2, p, e);
    lemma_pow_multiplies(a, big, e);
    lemma_pow_multiplies(a, e, big);
    lemma_pow_multiplies(b, big, e);
    lemma_pow_multiplies(b, e, big);
    assert(big * e == e * big) by (nonlinear_arith);
}

/// The factor overstates the real power by at most 48 steps:
/// `(f / N)^10000 <= (num / den)^bps * (1 + 1/N)^(48 * 10000)`.
pub proof fn lemma_factor_upper(num: nat, den: nat, bps: u16)
    requires
        pow_ratio_fixed(num, den, bps) is Some,
    ensures
        at_most_within(
            pow(pow_ratio_fixed(num, den, bps)->0 as int, bps_unit()) * pow(den as int, bps as nat),
            pow(num as int, bps as nat) * pow(one(), bps_unit()),
            48 * bps_unit(),
        ),
{
    let n = one();
    let big = scale();
    let ten = bps_unit();
    let w = bps as nat;
    let f = pow_ratio_fixed(num, den, bps)->0 as int;
    let ratio = (num * n / (den as int)) as nat;
    let l = log2_fixed(ratio);
    let y = l * exponent_fixed(bps) / big;
    assert(ratio <= u128::MAX) by {
        assert(num * n / (den as int) <= num * n) by (nonlinear_arith)
            requires
                den > 0,
                num * n >= 0,
        ;
    }
    lemma_scale();
    lemma_log2_fixed_bound(ratio);
    lemma_scaled_log(l, bps);
    lemma_ratio_log(num, den);
    lemma_exp2_upper(y);
    lemma_exp2_at_least_one(y);
    lemma_raise(f, y + 48, n, ten);
    lemma_raise_lower(num as int, l, den as int, w);
    let (ft, nt, mw, dw) = (
        pow(f, ten),
        pow(n, ten),
        pow(num as int, w),
        pow(den as int, w),
    );
    lemma_pow_positive(f, ten);
    lemma_pow_positive(n, ten);
    lemma_pow_positive(num as int, w);
    lemma_pow_positive(den as int, w);
    let k = 48 * ten;
    let (a, b) = (ft * dw, mw * nt);
    lemma_pow_distributes(ft, dw, big);
    lemma_pow_distributes(mw, nt, big);
    assert((y + 48) * ten == y * ten + k);
    assert(y * ten <= l * w);
    lemma_two_adds(y * ten, k);
    lemma_two_le(y * ten, l * w);
    let (fb, nb, mb, db) = (pow(ft, big), pow(nt, big), pow(mw, big), pow(dw, big));
    lemma_pow_positive(ft, big);
    lemma_pow_positive(nt, big);
    lemma_pow_positive(dw, big);
    let (p, q, t) = (pow(2, y * ten), pow(2, k), pow(2, l * w));
    assert(fb * db <= (mb * nb) * q) by (nonlinear_arith)
        requires
            fb <= (p * q) * nb,
            p <= t,
            t * db <= mb,
            0 < p,
            0 < q,
            0 < nb,
            0 < db,
    {
        assert(fb * db <= ((p * q) * nb) * db);
        assert(((p * q) * nb) * db == (p * db) * (q * nb));
        assert(p * db <= t * db);
        assert(0 < q * nb);
        assert((p * db) * (q * nb) <= mb * (q * nb));
    }
    assert(0 <= a && 0 <= b) by (nonlinear_arith)
        requires
            a == ft * dw,
            b == mw * nt,
            0 < ft,
            0 < dw,
            0 < mw,
            0 < nt,
    ;
    lemma_root_of_doubling(a, b, n, k);
}

/// The factor understates the real power by at most 231 steps:
/// `(num / den)^bps <= (f / N)^10000 * (1 + 1/N)^(231 * 10000)`.
pub proof fn lemma_factor_lower(num: nat, den: nat, bps: u16)
    requires
        pow_ratio_fixed(num, den, bps) is Some,
        bps <= 10_000,
    ensures
        at_most_within(
            pow(num as int, bps as nat) * pow(one(), bps_unit()),
            pow(pow_ratio_fixed(num, den, bps)->0 as int, bps_unit()) * pow(den as int, bps as nat),
            231 * bps_unit(),
        ),
{
    let n = one();
    let big = scale();
    let ten = bps_unit();
    let w = bps as nat;
    let f = pow_ratio_fixed(num, den, bps)->0 as int;
    let ratio = (num * n / (den as int)) as nat;
    let l = log2_fixed(ratio);
    let y = l * exponent_fixed(bps) / big;
    assert(ratio <= u128::MAX) by {
        assert(num * n / (den as int) <= num * n) by (nonlinear_arith)
            requires
                den > 0,
                num * n >= 0,
        ;
    }
    lemma_scale();
    lemma_log2_fixed_bound(ratio);
    lemma_scaled_log(l, bps);
    lemma_ratio_log(num, den);
    lemma_exp2_lower(y);
    lemma_exp2_at_least_one(y);
    lemma_raise(num as int, l + 6, den as int, w);
    let (ft, nt, mw, dw) = (
        pow(f, ten),
        pow(n, ten),
        pow(num as int, w),
        pow(den as int, w),
    );
    lemma_pow_positive(f, ten);
    lemma_pow_positive(n, ten);
    lemma_pow_positive(num as int, w);
    lemma_pow_positive(den as int, w);
    // 2^(10000 y) * nt^N <= ft^N * 2^(10000 * 144)
    assert(pow(2, y * ten) * pow(nt, big) <= pow(ft, big) * pow(2, 144 * ten)) by {
        lemma_pow_positive(n, big);
        lemma_pow_positive(2, y);
        assert(0 <= pow(2, y) * pow(n, big)) by (nonlinear_arith)
            requires
                0 < pow(2, y),
                0 < pow(n, big),
        ;
        lemma_pow_le(pow(2, y) * pow(n, big), pow(f, big) * pow(2, 144), ten);
        lemma_pow_distributes(pow(2, y), pow(n, big), ten);
        lemma_pow_distributes(pow(f, big), pow(2, 144), ten);
        lemma_pow_multiplies(2, y, ten);
        lemma_pow_multiplies(2, 144, ten);
        lemma_pow_multiplies(n, big, ten);
        lemma_pow_multiplies(n, ten, big);
        lemma_pow_multiplies(f, big, ten);
        lemma_pow_multiplies(f, ten, big);
        assert(big * ten == ten * big) by (nonlinear_arith);
    }
    let k = 231 * ten;
    let (a, b) = (mw * nt, ft * dw);
    lemma_pow_distributes(ft, dw, big);
    lemma_pow_distributes(mw, nt, big);
    assert((l + 6) * w <= y * ten + 87 * ten) by (nonlinear_arith)
        requires
            l * w <= 10_000 * (y + 81),
            w <= 10_000,
            ten == 10_000,
    ;
    lemma_two_adds(y * ten, 87 * ten);
    lemma_two_adds(87 * ten, 144 * ten);
    lemma_two_le((l + 6) * w, y * ten + 87 * ten);
    let (fb, nb, mb, db) = (pow(ft, big), pow(nt, big), pow(mw, big), pow(dw, big));
    lemma_pow_positive(ft, big);
    lemma_pow_positive(nt, big);
    lemma_pow_positive(dw, big);
    let (t, p, q, r) = (
        pow(2, (l + 6) * w),
        pow(2, y * ten),
        pow(2, 87 * ten),
        pow(2, 144 * ten),
    );
    assert(87 * ten + 144 * ten == k);
    assert(mb * nb <= (fb * db) * (q * r)) by (nonlinear_arith)
        requires
            mb <= t * db,
            t <= p * q,
            p * nb <= fb * r,
            0 < p,
            0 < q,
            0 < nb,
            0 < db,
            0 < t,
    {
        assert(mb * nb <= (t * db) * nb);
        assert((t * db) * nb <= ((p * q) * db) * nb) by {
            assert(t * db <= (p * q) * db);
        }
        assert(((p * q) * db) * nb == (p * nb) * (q * db));
        assert(0 < q * db);
        assert((p * nb) * (q * db) <= (fb * r) * (q * db));
        assert((fb * r) * (q * db) == (fb * db) * (q * r));
    }
    assert(0 <= a && 0 <= b) by (nonlinear_arith)
        requires
            b == ft * dw,
            a == mw * nt,
            0 < ft,
            0 < dw,
            0 < mw,
            0 < nt,
    ;
    lemma_root_of_doubling(a, b, n, k);
}

} // verus!
