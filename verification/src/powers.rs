//! Inequalities between integer powers.
//!
//! Real exponents never appear: `a^(p/q) <= b` is written `a^p <= b^q`, and a
//! relative error of one part in `n` is the ratio `(n + 1) / n`, multiplied out.

use vstd::arithmetic::power::{
    lemma_pow0, lemma_pow1, lemma_pow_adds, lemma_pow_distributes, lemma_pow_increases,
    lemma_pow_multiplies, lemma_pow_positive, pow,
};
use vstd::prelude::*;

verus! {

/// Products of ordered non-negative factors are ordered.
pub proof fn lemma_mul_le(a: int, b: int, c: int, d: int)
    requires
        0 <= a <= b,
        0 <= c <= d,
    ensures
        0 <= a * c <= b * d,
{
    assert(0 <= a * c <= b * d) by (nonlinear_arith)
        requires
            0 <= a <= b,
            0 <= c <= d,
    ;
}

/// A positive common factor cancels from an inequality.
pub proof fn lemma_cancel(a: int, b: int, c: int)
    requires
        0 < c,
        a * c <= b * c,
    ensures
        a <= b,
{
    assert(a <= b) by (nonlinear_arith)
        requires
            0 < c,
            a * c <= b * c,
    ;
}

/// Powers of non-negative bases are non-negative.
pub proof fn lemma_pow_nonneg(a: int, e: nat)
    requires
        0 <= a,
    ensures
        0 <= pow(a, e),
    decreases e,
{
    if e == 0 {
        lemma_pow0(a);
    } else {
        lemma_pow_nonneg(a, (e - 1) as nat);
        lemma_pow_step(a, (e - 1) as nat);
        lemma_mul_le(0, a, 0, pow(a, (e - 1) as nat));
    }
}

/// `a^(e + 1) = a * a^e`.
pub proof fn lemma_pow_step(a: int, e: nat)
    ensures
        pow(a, e + 1) == a * pow(a, e),
{
    lemma_pow_adds(a, 1, e);
    lemma_pow1(a);
}

/// A power is monotone in its base.
pub proof fn lemma_pow_le(a: int, b: int, e: nat)
    requires
        0 <= a <= b,
    ensures
        0 <= pow(a, e) <= pow(b, e),
    decreases e,
{
    if e == 0 {
        lemma_pow0(a);
        lemma_pow0(b);
    } else {
        let f = (e - 1) as nat;
        lemma_pow_le(a, b, f);
        lemma_pow_step(a, f);
        lemma_pow_step(b, f);
        lemma_mul_le(a, b, pow(a, f), pow(b, f));
    }
}

/// A power with a positive exponent is strictly monotone in its base.
pub proof fn lemma_pow_lt(a: int, b: int, e: nat)
    requires
        0 <= a < b,
        0 < e,
    ensures
        0 <= pow(a, e) < pow(b, e),
{
    let f = (e - 1) as nat;
    lemma_pow_le(a, b, f);
    lemma_pow_positive(b, f);
    lemma_pow_step(a, f);
    lemma_pow_step(b, f);
    let (x, y) = (pow(a, f), pow(b, f));
    assert(0 <= a * x < b * y) by (nonlinear_arith)
        requires
            0 <= a < b,
            0 <= x <= y,
            0 < y,
    ;
}

/// Roots keep the order: if `a^e <= b^e` then `a <= b`.
pub proof fn lemma_root_le(a: int, b: int, e: nat)
    requires
        0 <= a,
        0 <= b,
        0 < e,
        pow(a, e) <= pow(b, e),
    ensures
        a <= b,
{
    if b < a {
        lemma_pow_lt(b, a, e);
    }
}

/// `a^(2e) = (a * a)^e`.
pub proof fn lemma_pow_square(a: int, e: nat)
    ensures
        pow(a, 2 * e) == pow(a * a, e),
        pow(a, 2 * e) == pow(a, e) * pow(a, e),
{
    assert(2 * e == e + e);
    lemma_pow_adds(a, e, e);
    lemma_pow_distributes(a, a, e);
}

/// The square of a known power.
pub proof fn lemma_square_value(a: int, e: nat, v: int)
    requires
        pow(a, e) == v,
    ensures
        pow(a, 2 * e) == v * v,
{
    lemma_pow_square(a, e);
}

/// `(n + 1)^e * (n - e) <= n^e * n`: the ratio `(1 + 1/n)^e` is at most
/// `1 / (1 - e/n)`.
pub proof fn lemma_growth_upper(n: int, e: nat)
    requires
        0 < n,
        e <= n,
    ensures
        pow(n + 1, e) * (n - e) <= pow(n, e) * n,
    decreases e,
{
    if e == 0 {
        lemma_pow0(n + 1);
        lemma_pow0(n);
    } else {
        let f = (e - 1) as nat;
        lemma_growth_upper(n, f);
        lemma_pow_step(n + 1, f);
        lemma_pow_step(n, f);
        lemma_pow_positive(n + 1, f);
        let (x, y) = (pow(n + 1, f), pow(n, f));
        assert((n + 1) * x * (n - e) <= n * y * n) by (nonlinear_arith)
            requires
                0 < n,
                e == f + 1,
                0 <= f,
                e <= n,
                x * (n - f) <= y * n,
                0 < x,
        {
            assert((n + 1) * (n - e) <= n * (n - f)) by (nonlinear_arith)
                requires
                    0 < n,
                    e == f + 1,
                    0 <= f,
            ;
            assert(x * ((n + 1) * (n - e)) <= x * (n * (n - f)));
            assert(n * (x * (n - f)) <= n * (y * n));
        }
    }
}

/// `(n + 1)^e >= n^e + e * n^(e - 1)`, multiplied by `n`: the ratio
/// `(1 + 1/n)^e` is at least `1 + e/n`.
pub proof fn lemma_growth_lower(n: int, e: nat)
    requires
        0 < n,
    ensures
        pow(n, e) * (n + e) <= pow(n + 1, e) * n,
    decreases e,
{
    if e == 0 {
        lemma_pow0(n + 1);
        lemma_pow0(n);
    } else {
        let f = (e - 1) as nat;
        lemma_growth_lower(n, f);
        lemma_pow_step(n + 1, f);
        lemma_pow_step(n, f);
        lemma_pow_positive(n, f);
        let (x, y) = (pow(n + 1, f), pow(n, f));
        assert(n * y * (n + e) <= (n + 1) * x * n) by (nonlinear_arith)
            requires
                0 < n,
                e == f + 1,
                0 <= f,
                y * (n + f) <= x * n,
                0 < y,
        {
            assert(n * (n + e) <= (n + 1) * (n + f)) by (nonlinear_arith)
                requires
                    0 < n,
                    e == f + 1,
                    0 <= f,
            ;
            assert(y * (n * (n + e)) <= y * ((n + 1) * (n + f)));
            assert((n + 1) * (y * (n + f)) <= (n + 1) * (x * n));
        }
    }
}

/// `(1 + 1/n)^n` lies between 2 and 4, for even `n`.
pub proof fn lemma_growth_bounds(n: int)
    requires
        0 < n,
        n % 2 == 0,
    ensures
        2 * pow(n, n as nat) <= pow(n + 1, n as nat),
        pow(n + 1, n as nat) <= 4 * pow(n, n as nat),
{
    let e = n as nat;
    lemma_growth_lower(n, e);
    assert(2 * pow(n, e) <= pow(n + 1, e)) by {
        let (x, y) = (pow(n, e), pow(n + 1, e));
        assert(2 * x <= y) by (nonlinear_arith)
            requires
                0 < n,
                x * (n + n) <= y * n,
        ;
    }
    let h = (n / 2) as nat;
    assert(e == 2 * h);
    lemma_growth_upper(n, h);
    lemma_pow_positive(n, h);
    lemma_pow_positive(n + 1, h);
    let (x, y) = (pow(n + 1, h), pow(n, h));
    assert(x <= 2 * y) by (nonlinear_arith)
        requires
            0 < n,
            n == 2 * h,
            x * (n - h) <= y * n,
    ;
    lemma_pow_square(n + 1, h);
    lemma_pow_square(n, h);
    lemma_mul_le(x, 2 * y, x, 2 * y);
    assert((2 * y) * (2 * y) == 4 * (y * y)) by (nonlinear_arith);
}

/// `(1 + 1/n)^(2n)` is at most 8, for multiples of sixteen.
pub proof fn lemma_growth_square(n: int)
    requires
        0 < n,
        n % 16 == 0,
    ensures
        pow(n + 1, (2 * n) as nat) <= 8 * pow(n, (2 * n) as nat),
{
    let h = (n / 16) as nat;
    lemma_growth_upper(n, h);
    let (x, y) = (pow(n + 1, h), pow(n, h));
    lemma_pow_positive(n + 1, h);
    lemma_pow_positive(n, h);
    assert(15 * x <= 16 * y) by (nonlinear_arith)
        requires
            0 < n,
            n == 16 * h,
            x * (n - h) <= y * n,
    {
        assert(x * (15 * h) <= y * (16 * h));
    }
    lemma_pow_le(15 * x, 16 * y, 32);
    lemma_pow_distributes(15, x, 32);
    lemma_pow_distributes(16, y, 32);
    lemma_pow_multiplies(n + 1, h, 32);
    lemma_pow_multiplies(n, h, 32);
    assert(h * 32 == (2 * n) as nat);
    lemma_pow1(15);
    lemma_square_value(15, 1, 15);
    lemma_square_value(15, 2, 225);
    lemma_square_value(15, 4, 50_625);
    lemma_square_value(15, 8, 2_562_890_625);
    lemma_square_value(15, 16, 6_568_408_355_712_890_625);
    lemma_pow1(16);
    lemma_square_value(16, 1, 16);
    lemma_square_value(16, 2, 256);
    lemma_square_value(16, 4, 65_536);
    lemma_square_value(16, 8, 4_294_967_296);
    lemma_square_value(16, 16, 18_446_744_073_709_551_616);
    let (a, b) = (pow(n + 1, (2 * n) as nat), pow(n, (2 * n) as nat));
    let (c, d) = (pow(15, 32), pow(16, 32));
    lemma_pow_nonneg(n, (2 * n) as nat);
    assert(a <= 8 * b) by (nonlinear_arith)
        requires
            c * a <= d * b,
            d <= 8 * c,
            0 < c,
            0 <= b,
    {
        assert(d * b <= (8 * c) * b);
        assert(c * a <= c * (8 * b));
    }
}

/// `(1 + 4/(7n))^n` is at most 2, for multiples of four.
pub proof fn lemma_growth_slow(n: int)
    requires
        0 < n,
        n % 4 == 0,
    ensures
        pow(7 * (n / 4) + 1, n as nat) <= 2 * pow(7 * (n / 4), n as nat),
{
    let m = 7 * (n / 4);
    let h = (n / 2) as nat;
    lemma_growth_upper(m, h);
    let (x, y) = (pow(m + 1, h), pow(m, h));
    lemma_pow_positive(m + 1, h);
    lemma_pow_positive(m, h);
    let k = n / 4;
    assert(5 * x <= 7 * y) by (nonlinear_arith)
        requires
            0 < k,
            m == 7 * k,
            h == 2 * k,
            x * (m - h) <= y * m,
    {
        assert(x * (5 * k) <= y * (7 * k));
    }
    assert(n as nat == 2 * h);
    lemma_pow_square(m + 1, h);
    lemma_pow_square(m, h);
    assert(x * x <= 2 * (y * y)) by (nonlinear_arith)
        requires
            0 < x,
            0 < y,
            5 * x <= 7 * y,
    {
        assert((5 * x) * (5 * x) <= (7 * y) * (7 * y));
        assert((5 * x) * (5 * x) == 25 * (x * x));
        assert((7 * y) * (7 * y) == 49 * (y * y));
        assert(0 < y * y);
    }
}

/// `(1 + 1/n)^(3n)` is at least 16, for multiples of eight.
proof fn lemma_growth_cube(n: int)
    requires
        0 < n,
        n % 8 == 0,
    ensures
        16 * pow(n, (3 * n) as nat) <= pow(n + 1, (3 * n) as nat),
{
    let h = (n / 8) as nat;
    lemma_growth_lower(n, h);
    let (x, y) = (pow(n + 1, h), pow(n, h));
    lemma_pow_positive(n, h);
    assert(9 * y <= 8 * x) by (nonlinear_arith)
        requires
            0 < n,
            n == 8 * h,
            y * (n + h) <= x * n,
    {
        assert(y * (9 * h) <= x * (8 * h));
    }
    lemma_pow_le(9 * y, 8 * x, 24);
    lemma_pow_distributes(9, y, 24);
    lemma_pow_distributes(8, x, 24);
    lemma_pow_multiplies(n + 1, h, 24);
    lemma_pow_multiplies(n, h, 24);
    assert(h * 24 == (3 * n) as nat);
    lemma_pow1(9);
    lemma_pow_step(9, 1);
    lemma_pow_step(9, 2);
    lemma_square_value(9, 3, 729);
    lemma_square_value(9, 6, 531_441);
    lemma_square_value(9, 12, 282_429_536_481);
    lemma_pow1(8);
    lemma_pow_step(8, 1);
    lemma_pow_step(8, 2);
    lemma_square_value(8, 3, 512);
    lemma_square_value(8, 6, 262_144);
    lemma_square_value(8, 12, 68_719_476_736);
    let (a, b) = (pow(n + 1, (3 * n) as nat), pow(n, (3 * n) as nat));
    let (c, d) = (pow(8, 24), pow(9, 24));
    lemma_pow_nonneg(n, (3 * n) as nat);
    assert(16 * b <= a) by (nonlinear_arith)
        requires
            d * b <= c * a,
            16 * c <= d,
            0 < c,
            0 <= b,
    {
        assert((16 * c) * b <= d * b);
        assert(c * (16 * b) <= c * a);
    }
}

/// `2^k * n^(n * k) <= (n + 1)^(n * k)`: a factor of two is `n` steps of
/// relative size `1/n` or fewer.
pub proof fn lemma_double_by_growth(n: int, k: nat)
    requires
        0 < n,
        n % 2 == 0,
    ensures
        pow(2, k) * pow(n, (n * k) as nat) <= pow(n + 1, (n * k) as nat),
{
    let e = n as nat;
    lemma_growth_bounds(n);
    lemma_pow_positive(n, e);
    lemma_pow_le(2 * pow(n, e), pow(n + 1, e), k);
    lemma_pow_distributes(2, pow(n, e), k);
    lemma_pow_multiplies(n, e, k);
    lemma_pow_multiplies(n + 1, e, k);
}

/// From `a^n <= b^n * 2^k` to `a * n^k <= b * (n + 1)^k`: taking the `n`-th
/// root of `2^k` costs at most `k` steps of relative size `1/n`.
pub proof fn lemma_root_of_doubling(a: int, b: int, n: int, k: nat)
    requires
        0 < n,
        n % 2 == 0,
        0 <= a,
        0 <= b,
        pow(a, n as nat) <= pow(b, n as nat) * pow(2, k),
    ensures
        a * pow(n, k) <= b * pow(n + 1, k),
{
    let e = n as nat;
    let (nk, mk) = (pow(n, k), pow(n + 1, k));
    lemma_pow_positive(n, k);
    lemma_pow_positive(n + 1, k);
    lemma_double_by_growth(n, k);
    lemma_pow_multiplies(n, k, e);
    lemma_pow_multiplies(n + 1, k, e);
    assert((n * k) as nat == k * e) by (nonlinear_arith)
        requires
            e == n,
            0 < n,
            0 <= k,
    ;
    lemma_pow_distributes(a, nk, e);
    lemma_pow_distributes(b, mk, e);
    lemma_pow_nonneg(b, e);
    lemma_pow_nonneg(a, e);
    lemma_pow_positive(nk, e);
    let (p, q, t) = (pow(a, e), pow(b, e), pow(2, k));
    lemma_mul_le(p, q * t, pow(nk, e), pow(nk, e));
    assert(q * t * pow(nk, e) == q * (t * pow(nk, e))) by (nonlinear_arith);
    lemma_pow_positive(2, k);
    lemma_mul_le(0, t, 0, pow(nk, e));
    lemma_mul_le(q, q, t * pow(nk, e), pow(mk, e));
    lemma_mul_le(0, a, 0, nk);
    lemma_mul_le(0, b, 0, mk);
    if n >= 1 {
        lemma_root_le(a * nk, b * mk, e);
    }
}

/// From `a^n <= b^n * 16^k` to `a * n^(3k) <= b * (n + 1)^(3k)`: taking the
/// `n`-th root of `16^k` costs at most `3k` steps of relative size `1/n`.
pub proof fn lemma_root_of_sixteens(a: int, b: int, n: int, k: nat)
    requires
        0 < n,
        n % 8 == 0,
        0 <= a,
        0 <= b,
        pow(a, n as nat) <= pow(b, n as nat) * pow(16, k),
    ensures
        a * pow(n, 3 * k) <= b * pow(n + 1, 3 * k),
{
    let e = n as nat;
    let j = 3 * k;
    let (nk, mk) = (pow(n, j), pow(n + 1, j));
    lemma_pow_positive(n, j);
    lemma_pow_positive(n + 1, j);
    // 16^k * (n^(3k))^n <= ((n + 1)^(3k))^n
    let c = (3 * n) as nat;
    lemma_growth_cube(n);
    lemma_pow_positive(n, c);
    lemma_pow_le(16 * pow(n, c), pow(n + 1, c), k);
    lemma_pow_distributes(16, pow(n, c), k);
    lemma_pow_multiplies(n, c, k);
    lemma_pow_multiplies(n + 1, c, k);
    lemma_pow_multiplies(n, j, e);
    lemma_pow_multiplies(n + 1, j, e);
    assert(c * k == j * e) by (nonlinear_arith)
        requires
            c == 3 * n,
            j == 3 * k,
            e == n,
    ;
    lemma_pow_distributes(a, nk, e);
    lemma_pow_distributes(b, mk, e);
    lemma_pow_nonneg(b, e);
    lemma_pow_nonneg(a, e);
    lemma_pow_positive(nk, e);
    let (p, q, t) = (pow(a, e), pow(b, e), pow(16, k));
    lemma_mul_le(p, q * t, pow(nk, e), pow(nk, e));
    assert(q * t * pow(nk, e) == q * (t * pow(nk, e))) by (nonlinear_arith);
    lemma_pow_positive(16, k);
    lemma_mul_le(0, t, 0, pow(nk, e));
    lemma_mul_le(q, q, t * pow(nk, e), pow(mk, e));
    lemma_mul_le(0, a, 0, nk);
    lemma_mul_le(0, b, 0, mk);
    lemma_root_le(a * nk, b * mk, e);
}

/// `2^a * 2^b = 2^(a + b)` for exponents given as integers.
pub proof fn lemma_two_adds(a: nat, b: nat)
    ensures
        pow(2, a) * pow(2, b) == pow(2, a + b),
        0 < pow(2, a),
        0 < pow(2, b),
{
    lemma_pow_adds(2, a, b);
    lemma_pow_positive(2, a);
    lemma_pow_positive(2, b);
}

/// Powers of two are ordered as their exponents.
pub proof fn lemma_two_le(a: nat, b: nat)
    requires
        a <= b,
    ensures
        0 < pow(2, a) <= pow(2, b),
{
    lemma_pow_increases(2, a, b);
    lemma_pow_positive(2, a);
}

} // verus!
