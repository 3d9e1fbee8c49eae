//! What the bounds on the growth factor mean for a vault: how a factor compares
//! with its tangent line, how two factors in a row compare with one, and how far
//! the exponential undoes the logarithm.

use crate::accuracy::{
    at_most_within, bps_unit, lemma_exp2_lower, lemma_exp2_upper, lemma_factor_at_least_one,
    lemma_factor_lower, lemma_factor_range, lemma_factor_upper, lemma_log2_lower,
    lemma_log2_upper, one,
};
use crate::powers::{
    lemma_cancel, lemma_growth_upper, lemma_mul_le, lemma_pow_nonneg, lemma_pow_step,
    lemma_root_le, lemma_root_of_doubling, lemma_root_of_sixteens, lemma_two_adds,
};
use crate::q48::{
    exp2_fixed, exp2_unbounded, lemma_exp2_digits_of_zero, log2_digits, log2_fixed, log2_int,
    mantissa, pow_ratio_fixed, POW_ONE,
};
use vstd::arithmetic::power::{
    lemma_pow0, lemma_pow1, lemma_pow_adds, lemma_pow_distributes, lemma_pow_multiplies,
    lemma_pow_positive, pow,
};
use vstd::arithmetic::power2::{
    lemma2_to64, lemma2_to64_rest, lemma_pow2, lemma_pow2_adds, lemma_pow2_strictly_increases,
    lemma_pow2_unfold, pow2,
};
use vstd::prelude::*;

verus! {

/// A power lies above its tangent: `u^(m + 1) >= w^m * (w + (m + 1) * (u - w))`.
proof fn lemma_tangent(u: int, w: int, m: nat)
    requires
        0 <= u,
        0 <= w,
    ensures
        pow(w, m) * (w + (m + 1) * (u - w)) <= pow(u, m + 1),
    decreases m,
{
    if m == 0 {
        lemma_pow0(w);
        lemma_pow1(u);
        let p = pow(w, 0);
        assert(p * (w + 1 * (u - w)) == u) by (nonlinear_arith)
            requires
                p == 1,
        ;
    } else {
        let k = (m - 1) as nat;
        lemma_tangent(u, w, k);
        lemma_pow_step(w, k);
        lemma_pow_step(u, m);
        lemma_pow_nonneg(w, k);
        let (x, y) = (pow(w, k), pow(u, m));
        assert((w * x) * (w + (m + 1) * (u - w)) <= u * y) by (nonlinear_arith)
            requires
                x * (w + m * (u - w)) <= y,
                0 <= x,
                0 <= u,
                0 <= w,
                1 <= m,
        {
            assert(u * (x * (w + m * (u - w))) <= u * y);
            assert(u * (w + m * (u - w)) - w * (w + (m + 1) * (u - w)) == m * ((u - w) * (u - w)));
            assert(0 <= m * ((u - w) * (u - w)));
            assert(x * (w * (w + (m + 1) * (u - w))) <= x * (u * (w + m * (u - w))));
        }
    }
}

/// The mean of `i` copies of `b` and `j` copies of `a` is at least their
/// geometric mean: `(i + j)^(i + j) * b^i * a^j <= (i * b + j * a)^(i + j)`.
proof fn lemma_means(a: int, b: int, i: nat, j: nat)
    requires
        0 < a,
        0 < b,
        0 < i,
    ensures
        pow((i + j) as int, i + j) * (pow(b, i) * pow(a, j)) <= pow(i * b + j * a, i + j),
    decreases j,
{
    if j == 0 {
        lemma_pow0(a);
        lemma_pow_distributes(i as int, b, i);
        assert(i * b + 0 * a == i * b);
        assert(pow(b, i) * pow(a, 0) == pow(b, i));
    } else {
        let h = (j - 1) as nat;
        let k = i + h;
        let s = i * b + h * a;
        lemma_means(a, b, i, h);
        assert(0 < s) by (nonlinear_arith)
            requires
                s == i * b + h * a,
                0 < a,
                0 < b,
                0 < i,
                0 <= h,
        ;
        assert(i * b + j * a == s + a) by (nonlinear_arith)
            requires
                j == h + 1,
                s == i * b + h * a,
        ;
        // Tangent at w = s * (k + 1), u = (s + a) * k.
        let (u, w) = ((s + a) * k, s * (k + 1));
        assert(0 <= u && 0 <= w) by (nonlinear_arith)
            requires
                u == (s + a) * k,
                w == s * (k + 1),
                0 < s,
                0 < a,
                0 < k,
        ;
        lemma_tangent(u, w, k);
        assert(w + (k + 1) * (u - w) == (k + 1) * k * a) by (nonlinear_arith)
            requires
                u == (s + a) * k,
                w == s * (k + 1),
        ;
        lemma_pow_distributes(s + a, k as int, k + 1);
        lemma_pow_distributes(s, (k + 1) as int, k);
        lemma_pow_step(k as int, k);
        lemma_pow_step((k + 1) as int, k);
        lemma_pow_step(a, h);
        lemma_pow_positive(k as int, k);
        lemma_pow_positive((k + 1) as int, k);
        lemma_pow_positive(s, k);
        lemma_pow_positive(a, h);
        lemma_pow_positive(b, i);
        let (kk, k1, sk) = (pow(k as int, k), pow((k + 1) as int, k), pow(s, k));
        let (ah, bi, t) = (pow(a, h), pow(b, i), pow(s + a, k + 1));
        // sk * k1 * ((k + 1) * k * a) <= t * (k * kk) and kk * (bi * ah) <= sk
        assert(((k + 1) * k1) * (bi * (a * ah)) <= t) by (nonlinear_arith)
            requires
                (sk * k1) * ((k + 1) * k * a) <= t * (k * kk),
                kk * (bi * ah) <= sk,
                0 < k,
                0 < kk,
                0 < k1,
                0 < sk,
                0 < a,
                0 < bi,
                0 < ah,
        {
            assert(0 < k1 * ((k + 1) * k * a));
            assert((kk * (bi * ah)) * (k1 * ((k + 1) * k * a)) <= sk * (k1 * ((k + 1) * k * a)));
            assert((kk * (bi * ah)) * (k1 * ((k + 1) * k * a)) == (((k + 1) * k1) * (bi * (a
                * ah))) * (k * kk));
            assert(0 < k * kk);
        }
        assert(k + 1 == i + j);
    }
}

/// `(1 + 1/N)^k <= N / (N - k)`: dropping the steps from a comparison.
proof fn lemma_drop_steps(a: int, b: int, k: nat)
    requires
        0 <= a,
        0 <= b,
        k < POW_ONE,
        at_most_within(a, b, k),
    ensures
        a * (one() - k) <= b * one(),
{
    let n = one();
    lemma_growth_upper(n, k);
    lemma_pow_positive(n, k);
    let (x, y) = (pow(n, k), pow(n + 1, k));
    assert(a * (n - k) <= b * n) by (nonlinear_arith)
        requires
            a * x <= b * y,
            y * (n - k) <= x * n,
            0 < x,
            0 <= b,
            k < n,
    {
        assert((a * x) * (n - k) <= (b * y) * (n - k));
        assert(b * (y * (n - k)) <= b * (x * n));
        assert((a * (n - k)) * x <= (b * n) * x);
    }
}

/// `x^(c * e) = (x^c)^e`.
proof fn lemma_regroup(x: int, c: nat, e: nat)
    ensures
        pow(x, c * e) == pow(pow(x, c), e),
{
    lemma_pow_multiplies(x, c, e);
}

/// The factor lies above the chord of its power law: with `f` the factor from
/// `v0` to `vf`, `10000 * vf * (N - 231) <= f * (10000 * vf - bps * (vf - v0))`.
///
/// Read: the share `N / f` that the old supply keeps is at most
/// `1 - backing * (vf - v0) / vf`, but for rounding.
pub proof fn lemma_factor_chord(vf: nat, v0: nat, bps: u16)
    requires
        pow_ratio_fixed(vf, v0, bps) is Some,
        bps <= 9_900,
    ensures
        10_000 * vf * (POW_ONE - 231) <= pow_ratio_fixed(vf, v0, bps)->0 * (10_000 * vf - bps * (vf
            - v0)),
{
    let n = one();
    let ten = bps_unit();
    let w = bps as nat;
    let i = (ten - w) as nat;
    let f = pow_ratio_fixed(vf, v0, bps)->0 as int;
    let k: nat = 231;
    lemma_factor_lower(vf, v0, bps);
    lemma_factor_range(vf, v0, bps);
    lemma_means(v0 as int, vf as int, i, w);
    let mean: int = i * (vf as int) + w * (v0 as int);
    assert(mean == 10_000 * vf - bps * (vf - v0)) by (nonlinear_arith)
        requires
            mean == i * vf + w * v0,
            i == 10_000 - w,
            w == bps,
    ;
    assert(0 <= mean) by (nonlinear_arith)
        requires
            mean == i * vf + w * v0,
            0 <= i,
            0 <= w,
    ;
    // (vf * N * N^k * 10000)^10000 <= (f * mean * (N + 1)^k)^10000
    let (nk, mk) = (pow(n, k), pow(n + 1, k));
    lemma_pow_positive(n, k);
    lemma_pow_positive(n + 1, k);
    let lhs = 10_000 * (vf * n * nk);
    let rhs = f * mean * mk;
    lemma_regroup(n, k, ten);
    lemma_regroup(n + 1, k, ten);
    lemma_pow_adds(vf as int, w, i);
    lemma_pow_distributes(10_000, vf * n * nk, ten);
    lemma_pow_distributes(vf * n, nk, ten);
    lemma_pow_distributes(vf as int, n, ten);
    lemma_pow_distributes(f * mean, mk, ten);
    lemma_pow_distributes(f, mean, ten);
    let (vw, vi, ow, nt, ft) = (
        pow(vf as int, w),
        pow(vf as int, i),
        pow(v0 as int, w),
        pow(n, ten),
        pow(f, ten),
    );
    let (nkt, mkt, mt, tt) = (pow(nk, ten), pow(mk, ten), pow(mean, ten), pow(10_000, ten));
    lemma_pow_positive(vf as int, i);
    lemma_pow_positive(vf as int, w);
    lemma_pow_positive(v0 as int, w);
    lemma_pow_positive(f, ten);
    lemma_pow_positive(mk, ten);
    lemma_pow_positive(nk, ten);
    lemma_pow_positive(10_000, ten);
    assert(i + w == ten);
    assert(w + i == ten);
    assert(tt * (((vw * vi) * nt) * nkt) <= (ft * mt) * mkt) by (nonlinear_arith)
        requires
            (vw * nt) * nkt <= (ft * ow) * mkt,
            tt * (vi * ow) <= mt,
            0 < tt,
            0 < vi,
            0 < ft,
            0 < mkt,
    {
        assert(0 < tt * vi);
        assert(((vw * nt) * nkt) * (tt * vi) <= ((ft * ow) * mkt) * (tt * vi));
        assert(((vw * nt) * nkt) * (tt * vi) == tt * (((vw * vi) * nt) * nkt));
        assert(((ft * ow) * mkt) * (tt * vi) == (ft * mkt) * (tt * (vi * ow)));
        assert(0 < ft * mkt);
        assert((ft * mkt) * (tt * (vi * ow)) <= (ft * mkt) * mt);
        assert((ft * mkt) * mt == (ft * mt) * mkt);
    }
    assert(0 <= lhs && 0 <= rhs) by (nonlinear_arith)
        requires
            lhs == 10_000 * (vf * n * nk),
            rhs == f * mean * mk,
            0 <= vf,
            0 < n,
            0 < nk,
            0 <= f,
            0 <= mean,
            0 < mk,
    ;
    lemma_root_le(lhs, rhs, ten);
    // Drop the k steps.
    let (a, b) = (10_000 * (vf * n), f * mean);
    assert(a * nk == lhs) by (nonlinear_arith)
        requires
            a == 10_000 * (vf * n),
            lhs == 10_000 * (vf * n * nk),
    ;
    assert(0 <= a && 0 <= b) by (nonlinear_arith)
        requires
            a == 10_000 * (vf * n),
            b == f * mean,
            0 <= vf,
            0 < n,
            0 <= f,
            0 <= mean,
    ;
    lemma_drop_steps(a, b, k);
    assert(10_000 * vf * (n - 231) <= b) by (nonlinear_arith)
        requires
            a * (n - 231) <= b * n,
            a == 10_000 * (vf * n),
            0 < n,
    {
        assert((10_000 * vf * (n - 231)) * n <= b * n);
    }
}

/// `(u * v) * (w * x) = (u * w) * (v * x)`.
pub proof fn lemma_swap(u: int, v: int, w: int, x: int)
    ensures
        (u * v) * (w * x) == (u * w) * (v * x),
{
    assert((u * v) * (w * x) == (u * w) * (v * x)) by (nonlinear_arith);
}

proof fn lemma_commute(x: int, y: int)
    ensures
        x * y == y * x,
{
    assert(x * y == y * x) by (nonlinear_arith);
}

/// `((p a) h) ((q b) i) (z j) = ((p q) (h i j)) ((a b) z)`.
proof fn lemma_pair_up(p: int, a: int, q: int, b: int, h: int, i: int, z: int, j: int)
    ensures
        ((p * a) * h) * ((q * b) * i) * (z * j) == ((p * q) * (h * i * j)) * ((a * b) * z),
{
    lemma_swap(p * a, h, q * b, i);
    lemma_swap(p, a, q, b);
    let (pq, ab, hi) = (p * q, a * b, h * i);
    lemma_swap(pq * ab, hi, z, j);
    let hij = hi * j;
    assert(((pq * ab) * z) * hij == (pq * hij) * (ab * z)) by (nonlinear_arith);
}

/// `(((b t) z) (r a)) m = ((r t) m) ((a b) z)`.
proof fn lemma_collect(b: int, t: int, z: int, r: int, a: int, m: int)
    ensures
        (((b * t) * z) * (r * a)) * m == ((r * t) * m) * ((a * b) * z),
{
    lemma_swap(b, t, a, r);
    lemma_commute(r, a);
    lemma_commute(a, b);
    lemma_commute(r, t);
    let (bt, ra, ab, rt) = (b * t, r * a, a * b, r * t);
    assert(bt * ra == ab * rt);
    assert(((bt * z) * ra) * m == (bt * ra) * (z * m)) by (nonlinear_arith);
    assert((ab * rt) * (z * m) == (rt * m) * (ab * z)) by (nonlinear_arith);
}

/// The product of three ordered pairs.
proof fn lemma_three_products(x1: int, y1: int, x2: int, y2: int, x3: int, y3: int)
    requires
        0 <= x1 <= y1,
        0 <= x2 <= y2,
        0 <= x3 <= y3,
    ensures
        x1 * x2 * x3 <= y1 * y2 * y3,
{
    lemma_mul_le(x1, y1, x2, y2);
    lemma_mul_le(x1 * x2, y1 * y2, x3, y3);
}

/// Chaining two upper bounds with one lower bound.
proof fn lemma_three_factors(
    p: int,
    a: int,
    nh: int,
    b: int,
    nt: int,
    mh: int,
    q: int,
    c: int,
    r: int,
    nl: int,
    ml: int,
)
    requires
        (p * a) * nh <= (b * nt) * mh,
        (q * b) * nh <= (c * nt) * mh,
        (c * nt) * nl <= (r * a) * ml,
        0 < a,
        0 < b,
        0 < c,
        0 < nt,
        0 < nh,
        0 < nl,
        0 < p,
        0 < q,
    ensures
        (p * q) * (nh * nh * nl) <= (r * nt) * (mh * mh * ml),
{
    let (x1, x2, x3) = ((p * a) * nh, (q * b) * nh, (c * nt) * nl);
    let (y1, y2, y3) = ((b * nt) * mh, (c * nt) * mh, (r * a) * ml);
    assert(0 <= x1) by (nonlinear_arith)
        requires
            x1 == (p * a) * nh,
            0 < p,
            0 < a,
            0 < nh,
    ;
    assert(0 <= x2) by (nonlinear_arith)
        requires
            x2 == (q * b) * nh,
            0 < q,
            0 < b,
            0 < nh,
    ;
    assert(0 <= x3) by (nonlinear_arith)
        requires
            x3 == (c * nt) * nl,
            0 < c,
            0 < nt,
            0 < nl,
    ;
    lemma_three_products(x1, y1, x2, y2, x3, y3);
    let z = (a * b) * (c * nt);
    assert(0 < z) by (nonlinear_arith)
        requires
            z == (a * b) * (c * nt),
            0 < a,
            0 < b,
            0 < c,
            0 < nt,
    {
        assert(0 < a * b);
        assert(0 < c * nt);
    }
    let (lhs, rhs) = ((p * q) * (nh * nh * nl), (r * nt) * (mh * mh * ml));
    lemma_pair_up(p, a, q, b, nh, nh, c * nt, nl);
    lemma_swap(b, nt, r, a);
    lemma_swap(b * nt, mh, c * nt, mh);
    lemma_swap((b * nt) * (c * nt), mh * mh, r * a, ml);
    lemma_collect(b, nt, c * nt, r, a, mh * mh * ml);
    lemma_cancel(lhs, rhs, z);
}

/// Chaining two lower bounds with one upper bound.
proof fn lemma_three_factors_lower(
    p: int,
    a: int,
    nh: int,
    b: int,
    nt: int,
    mh: int,
    q: int,
    c: int,
    r: int,
    nl: int,
    ml: int,
)
    requires
        (r * a) * nh <= (c * nt) * mh,
        (b * nt) * nl <= (p * a) * ml,
        (c * nt) * nl <= (q * b) * ml,
        0 < a,
        0 < b,
        0 < c,
        0 < nt,
        0 < nh,
        0 < nl,
        0 < r,
    ensures
        (r * nt) * (nh * nl * nl) <= (p * q) * (mh * ml * ml),
{
    let (x1, x2, x3) = ((r * a) * nh, (b * nt) * nl, (c * nt) * nl);
    let (y1, y2, y3) = ((c * nt) * mh, (p * a) * ml, (q * b) * ml);
    assert(0 <= x1) by (nonlinear_arith)
        requires
            x1 == (r * a) * nh,
            0 < r,
            0 < a,
            0 < nh,
    ;
    assert(0 <= x2) by (nonlinear_arith)
        requires
            x2 == (b * nt) * nl,
            0 < b,
            0 < nt,
            0 < nl,
    ;
    assert(0 <= x3) by (nonlinear_arith)
        requires
            x3 == (c * nt) * nl,
            0 < c,
            0 < nt,
            0 < nl,
    ;
    lemma_three_products(x1, y1, x2, y2, x3, y3);
    let z = (a * b) * (c * nt);
    assert(0 < z) by (nonlinear_arith)
        requires
            z == (a * b) * (c * nt),
            0 < a,
            0 < b,
            0 < c,
            0 < nt,
    {
        assert(0 < a * b);
        assert(0 < c * nt);
    }
    let (lhs, rhs) = ((r * nt) * (nh * nl * nl), (p * q) * (mh * ml * ml));
    lemma_pair_up(r, a, nt, b, nh, nl, c * nt, nl);
    lemma_commute(b, nt);
    lemma_pair_up(p, a, q, b, ml, ml, c * nt, mh);
    let (m1, m2, m3) = ((p * a) * ml, (q * b) * ml, (c * nt) * mh);
    assert(m3 * m1 * m2 == m1 * m2 * m3) by (nonlinear_arith);
    assert(ml * ml * mh == mh * ml * ml) by (nonlinear_arith);
    lemma_cancel(lhs, rhs, z);
}

/// Two steps do not grow faster than one: with `f1` the factor from `v0` to
/// `v1`, `f2` from `v1` to `v2` and `f` from `v0` to `v2`,
/// `f1 * f2 * (N - 327) <= f * N * N`, and not slower,
/// `f * (N - 510) <= f1 * f2`.
pub proof fn lemma_factors_compose(v0: nat, v1: nat, v2: nat, bps: u16)
    requires
        pow_ratio_fixed(v1, v0, bps) is Some,
        pow_ratio_fixed(v2, v1, bps) is Some,
        pow_ratio_fixed(v2, v0, bps) is Some,
        bps <= 10_000,
    ensures
        ({
            let f1 = pow_ratio_fixed(v1, v0, bps)->0;
            let f2 = pow_ratio_fixed(v2, v1, bps)->0;
            let f = pow_ratio_fixed(v2, v0, bps)->0;
            &&& f1 * f2 * (POW_ONE - 327) <= f * POW_ONE * POW_ONE
            &&& f * (POW_ONE - 510) <= f1 * f2
        }),
{
    let n = one();
    let ten = bps_unit();
    let w = bps as nat;
    let f1 = pow_ratio_fixed(v1, v0, bps)->0 as int;
    let f2 = pow_ratio_fixed(v2, v1, bps)->0 as int;
    let f = pow_ratio_fixed(v2, v0, bps)->0 as int;
    lemma_factor_at_least_one(v1, v0, bps);
    lemma_factor_at_least_one(v2, v1, bps);
    lemma_factor_at_least_one(v2, v0, bps);
    lemma_factor_upper(v1, v0, bps);
    lemma_factor_upper(v2, v1, bps);
    lemma_factor_upper(v2, v0, bps);
    lemma_factor_lower(v1, v0, bps);
    lemma_factor_lower(v2, v1, bps);
    lemma_factor_lower(v2, v0, bps);
    let (a, b, c) = (pow(v0 as int, w), pow(v1 as int, w), pow(v2 as int, w));
    let (p, q, r, nt) = (pow(f1, ten), pow(f2, ten), pow(f, ten), pow(n, ten));
    lemma_pow_positive(v0 as int, w);
    lemma_pow_positive(v1 as int, w);
    lemma_pow_positive(v2 as int, w);
    lemma_pow_positive(f1, ten);
    lemma_pow_positive(f2, ten);
    lemma_pow_positive(f, ten);
    lemma_pow_positive(n, ten);
    let (hi, lo) = (48 * ten, 231 * ten);
    let (nh, mh, nl, ml) = (pow(n, hi), pow(n + 1, hi), pow(n, lo), pow(n + 1, lo));
    lemma_pow_positive(n, hi);
    lemma_pow_positive(n + 1, hi);
    lemma_pow_positive(n, lo);
    lemma_pow_positive(n + 1, lo);
    lemma_pow_distributes(f1, f2, ten);
    lemma_pow_distributes(f, n, ten);
    assert(0 < f1 * f2 && 0 < f * n) by (nonlinear_arith)
        requires
            0 < f1,
            0 < f2,
            0 < f,
            0 < n,
    ;
    // First claim: p * q * (nh * nh * nl) <= r * nt * (mh * mh * ml).
    lemma_three_factors(p, a, nh, b, nt, mh, q, c, r, nl, ml);
    let k1: nat = 327;
    lemma_pow_adds(n, hi, hi);
    lemma_pow_adds(n, hi + hi, lo);
    lemma_pow_adds(n + 1, hi, hi);
    lemma_pow_adds(n + 1, hi + hi, lo);
    assert(hi + hi + lo == k1 * ten);
    lemma_step_root(f1 * f2, f * n, k1);
    assert(f1 * f2 * (n - 327) <= f * n * n);
    // Second claim: r * nt * (nh * nl * nl) <= p * q * (mh * ml * ml).
    lemma_three_factors_lower(p, a, nh, b, nt, mh, q, c, r, nl, ml);
    let k2: nat = 510;
    lemma_pow_adds(n, hi, lo);
    lemma_pow_adds(n, hi + lo, lo);
    lemma_pow_adds(n + 1, hi, lo);
    lemma_pow_adds(n + 1, hi + lo, lo);
    assert(hi + lo + lo == k2 * ten);
    lemma_step_root(f * n, f1 * f2, k2);
    let d = f1 * f2;
    assert(f * (n - 510) <= d) by (nonlinear_arith)
        requires
            (f * n) * (n - 510) <= d * n,
            0 < n,
    {
        assert((f * (n - 510)) * n <= d * n);
    }
}

/// Taking 10000-th roots and dropping the steps.
pub proof fn lemma_step_root(x: int, y: int, k: nat)
    requires
        0 < x,
        0 < y,
        k < POW_ONE,
        pow(x, bps_unit()) * pow(one(), k * bps_unit()) <= pow(y, bps_unit()) * pow(
            one() + 1,
            k * bps_unit(),
        ),
    ensures
        x * (one() - k) <= y * one(),
{
    let n = one();
    let ten = bps_unit();
    let (nk, mk) = (pow(n, k), pow(n + 1, k));
    lemma_regroup(n, k, ten);
    lemma_regroup(n + 1, k, ten);
    lemma_pow_distributes(x, nk, ten);
    lemma_pow_distributes(y, mk, ten);
    lemma_pow_positive(n, k);
    lemma_pow_positive(n + 1, k);
    assert(0 <= x * nk && 0 <= y * mk) by (nonlinear_arith)
        requires
            0 < x,
            0 < y,
            0 < nk,
            0 < mk,
    ;
    lemma_root_le(x * nk, y * mk, ten);
    lemma_drop_steps(x, y, k);
}

/// The power law composes: with `f1` the factor from `a` to `b`, `f2` from `b` to
/// `c` and `f` from `a` to `c`, the product `f1 * f2` is `f`, within 510 parts in
/// `2^48`, and within `2^-38` of `f` after rounding down to Q48.
pub proof fn law_factors_compose(a: nat, b: nat, c: nat, bps: u16)
    requires
        bps <= 10_000,
        pow_ratio_fixed(b, a, bps) is Some,
        pow_ratio_fixed(c, b, bps) is Some,
        pow_ratio_fixed(c, a, bps) is Some,
    ensures
        ({
            let f1 = pow_ratio_fixed(b, a, bps)->0;
            let f2 = pow_ratio_fixed(c, b, bps)->0;
            let f = pow_ratio_fixed(c, a, bps)->0;
            let both = f1 * f2 / (POW_ONE as nat);
            &&& -510 * f <= f1 * f2 - f * POW_ONE <= 510 * f
            &&& -f <= (both - f) * 274_877_906_944 <= f
        }),
{
    let f1 = pow_ratio_fixed(b, a, bps)->0 as int;
    let f2 = pow_ratio_fixed(c, b, bps)->0 as int;
    let f = pow_ratio_fixed(c, a, bps)->0 as int;
    let n = one();
    lemma_factors_compose(a, b, c, bps);
    lemma_factor_at_least_one(c, a, bps);
    let d = f1 * f2;
    let g = f * n;
    assert(d * (n - 327) <= g * n);
    assert(f * (n - 510) == g - 510 * f) by (nonlinear_arith)
        requires
            g == f * n,
    ;
    assert(d <= g + 328 * f) by (nonlinear_arith)
        requires
            d * (n - 327) <= g * n,
            g == f * n,
            f >= 0,
            n == 281_474_976_710_656,
    {
        assert((g + 328 * f) * (n - 327) == g * n + f * (n - 327 * 328)) by (nonlinear_arith)
            requires
                g == f * n,
                n == 281_474_976_710_656,
        ;
        assert(f * (n - 327 * 328) >= 0);
        assert(d * (n - 327) <= (g + 328 * f) * (n - 327));
    }
    let q = d / n;
    assert(q * n <= d < (q + 1) * n) by (nonlinear_arith)
        requires
            q == d / n,
            n > 0,
    ;
    assert((q - f) * n <= 328 * f && (f - q - 1) * n <= 510 * f) by (nonlinear_arith)
        requires
            q * n <= d < (q + 1) * n,
            g == f * n,
            d <= g + 328 * f,
            g - 510 * f <= d,
    ;
}

/// Halving a power of two comes down to one.
proof fn lemma_log2_of_power(k: nat)
    ensures
        log2_int(pow2(k + 48)) == k,
        mantissa(pow2(k + 48)) == POW_ONE,
    decreases k,
{
    lemma2_to64_rest();
    lemma_pow2_unfold(k + 48);
    if k > 0 {
        lemma_log2_of_power((k - 1) as nat);
        lemma_pow2_unfold(k + 47);
        lemma_pow2_strictly_increases(48, k + 48);
        if k > 1 {
            lemma_pow2_strictly_increases(49, k + 48);
        }
        lemma_pow2_unfold(49);
    }
}

/// The logarithm of one has no digits.
proof fn lemma_log2_digits_of_one(n: nat)
    ensures
        log2_digits(POW_ONE as nat, n) == 0,
    decreases n,
{
    if n > 0 {
        let one = POW_ONE as nat;
        assert(one * one / one == one) by (nonlinear_arith)
            requires
                one > 0,
        ;
        lemma_log2_digits_of_one((n - 1) as nat);
    }
}

/// The exponential undoes the logarithm exactly on powers of two.
proof fn lemma_undone_on_powers(k: nat)
    ensures
        exp2_unbounded(log2_fixed(pow2(k + 48))) == pow2(k + 48),
{
    let one = POW_ONE as nat;
    lemma_log2_of_power(k);
    lemma_log2_digits_of_one(48);
    lemma_exp2_digits_of_zero(48);
    let y = log2_fixed(pow2(k + 48));
    assert(y == k * one);
    assert(y % one == 0 && y / one == k) by (nonlinear_arith)
        requires
            y == k * one,
            one > 0,
    ;
    lemma2_to64_rest();
    lemma_pow2_adds(48, k);
    assert(48 + k == k + 48);
}

/// The exponential undoes the logarithm, within `2^-41` of the number, and
/// exactly on powers of two.
pub proof fn law_exp2_undoes_log2(x: nat)
    requires
        POW_ONE <= x <= u128::MAX,
    ensures
        -x <= (exp2_fixed(log2_fixed(x)) - x) * 2_199_023_255_552 <= x,
        forall|k: nat| x == #[trigger] pow2(k) ==> exp2_fixed(log2_fixed(x)) == x,
{
    let n = one();
    let big = POW_ONE as nat;
    let y = log2_fixed(x);
    let e = exp2_unbounded(y) as int;
    let z = x as int;
    lemma_log2_lower(x);
    lemma_log2_upper(x);
    lemma_exp2_upper(y);
    lemma_exp2_lower(y);
    lemma_pow_positive(n, big);
    lemma_pow_nonneg(e, big);
    lemma_pow_nonneg(z, big);
    let (eb, xb, nb, p) = (pow(e, big), pow(z, big), pow(n, big), pow(2, y));
    // Upper: e^N <= x^N * 2^48.
    lemma_two_adds(y, 48);
    let c = pow(2, 48);
    assert(eb <= xb * c) by (nonlinear_arith)
        requires
            eb <= (p * c) * nb,
            p * nb <= xb,
            0 < c,
    {
        assert((p * c) * nb == (p * nb) * c);
        assert((p * nb) * c <= xb * c);
    }
    lemma_root_of_doubling(e, z, n, 48);
    lemma_drop_steps(e, z, 48);
    assert((e - z) * 2_199_023_255_552 <= z);
    // Lower: x^N <= e^N * 2^148, and 2^148 = 16^37.
    lemma_two_adds(y, 4);
    lemma_two_adds(144, 4);
    let (a, b) = (pow(2, 4), pow(2, 144));
    assert(xb <= eb * (b * a)) by (nonlinear_arith)
        requires
            xb <= (p * a) * nb,
            p * nb <= eb * b,
            0 < a,
    {
        assert((p * a) * nb == (p * nb) * a);
        assert((p * nb) * a <= (eb * b) * a);
    }
    lemma_pow2(4);
    lemma2_to64();
    lemma_pow_multiplies(2, 4, 37);
    lemma_root_of_sixteens(z, e, n, 37);
    lemma_drop_steps(z, e, 111);
    assert((z - e) * 2_199_023_255_552 <= z);
    assert forall|k: nat| x == #[trigger] pow2(k) implies exp2_fixed(log2_fixed(x)) == x by {
        if k < 48 {
            lemma2_to64_rest();
            lemma_pow2_strictly_increases(k, 48);
        }
        lemma_undone_on_powers((k - 48) as nat);
    }
}

} // verus!
