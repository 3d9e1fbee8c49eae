//! Buying in many parts against buying at once.

use crate::accuracy::{
    at_most_within, bps_unit, lemma_factor_lower, lemma_factor_range, lemma_factor_upper, one,
};
use crate::growth::{lemma_step_root, lemma_swap};
use crate::laws::{law_validity_is_kept, Market, Step};
use crate::market::lemma_scaled_supply;
use crate::powers::{lemma_cancel, lemma_mul_le, lemma_pow_le, lemma_pow_nonneg};
use crate::q48::{pow_ratio_fixed, POW_ONE};
use vstd::arithmetic::power::{
    lemma_pow0, lemma_pow_adds, lemma_pow_distributes, lemma_pow_positive, pow,
};
use vstd::prelude::*;

verus! {

impl Market {
    /// The market after buys in a row; `None` where one of them fails.
    pub open spec fn after_buys(self, parts: Seq<u64>) -> Option<Market>
        decreases parts.len(),
    {
        if parts.len() == 0 {
            Some(self)
        } else {
            match self.after_buys(parts.drop_last()) {
                None => None,
                Some(m) => m.after_buy(parts.last()),
            }
        }
    }

    /// The lamports that buys in a row mint against.
    pub open spec fn nets(self, parts: Seq<u64>) -> int
        decreases parts.len(),
    {
        if parts.len() == 0 {
            0
        } else {
            self.nets(parts.drop_last()) + self.net(parts.last())
        }
    }
}

/// Comparisons multiply, and their steps add up.
proof fn lemma_within_product(x1: int, y1: int, k1: nat, x2: int, y2: int, k2: nat)
    requires
        0 <= x1,
        0 <= x2,
        at_most_within(x1, y1, k1),
        at_most_within(x2, y2, k2),
    ensures
        at_most_within(x1 * x2, y1 * y2, k1 + k2),
{
    let n = one();
    lemma_pow_positive(n, k1);
    lemma_pow_positive(n, k2);
    lemma_pow_adds(n, k1, k2);
    lemma_pow_adds(n + 1, k1, k2);
    let (a1, a2, b1, b2) = (pow(n, k1), pow(n, k2), pow(n + 1, k1), pow(n + 1, k2));
    assert(0 <= x1 * a1 && 0 <= x2 * a2) by (nonlinear_arith)
        requires
            0 <= x1,
            0 <= x2,
            0 < a1,
            0 < a2,
    ;
    lemma_mul_le(x1 * a1, y1 * b1, x2 * a2, y2 * b2);
    lemma_swap(x1, a1, x2, a2);
    lemma_swap(y1, b1, y2, b2);
}

/// A comparison of `x * c` with `y * c` is one of `x` with `y`; what is less on
/// the left or more on the right only helps.
proof fn lemma_within_cancel(u: int, v: int, x: int, y: int, c: int, k: nat)
    requires
        0 < c,
        at_most_within(u, v, k),
        x * c <= u,
        v <= y * c,
    ensures
        at_most_within(x, y, k),
{
    let n = one();
    lemma_pow_positive(n, k);
    lemma_pow_positive(n + 1, k);
    let (a, b) = (pow(n, k), pow(n + 1, k));
    assert((x * c) * a <= u * a && v * b <= (y * c) * b) by (nonlinear_arith)
        requires
            x * c <= u,
            v <= y * c,
            0 < a,
            0 < b,
    ;
    assert((x * c) * a == (x * a) * c && (y * c) * b == (y * b) * c) by (nonlinear_arith);
    lemma_cancel(x * a, y * b, c);
}

/// Products compare as their powers do.
proof fn lemma_raise_products(a: int, b: int, c: int, d: int)
    requires
        0 <= a,
        0 <= b,
        a * b <= c * d,
    ensures
        pow(a, bps_unit()) * pow(b, bps_unit()) <= pow(c, bps_unit()) * pow(d, bps_unit()),
{
    assert(0 <= a * b) by (nonlinear_arith)
        requires
            0 <= a,
            0 <= b,
    ;
    lemma_pow_le(a * b, c * d, bps_unit());
    lemma_pow_distributes(a, b, bps_unit());
    lemma_pow_distributes(c, d, bps_unit());
}

/// One more part, from above: with `s a` at most `o b` and `p b` at most `c t`,
/// up to steps, and `z t <= s p`, also `z a` is at most `o c`.
proof fn lemma_more(
    s: int,
    a: int,
    o: int,
    b: int,
    p: int,
    c: int,
    t: int,
    z: int,
    k1: nat,
    k2: nat,
)
    requires
        0 <= s,
        0 <= a,
        0 < b,
        0 <= p,
        0 < t,
        z * t <= s * p,
        at_most_within(s * a, o * b, k1),
        at_most_within(p * b, c * t, k2),
    ensures
        at_most_within(z * a, o * c, k1 + k2),
{
    assert(0 <= s * a && 0 <= p * b && 0 <= a * b && 0 < t * b) by (nonlinear_arith)
        requires
            0 <= s,
            0 <= a,
            0 < b,
            0 <= p,
            0 < t,
    ;
    lemma_within_product(s * a, o * b, k1, p * b, c * t, k2);
    lemma_swap(s, a, p, b);
    lemma_swap(o, b, c, t);
    lemma_swap(z, a, t, b);
    assert((z * t) * (a * b) <= (s * p) * (a * b)) by (nonlinear_arith)
        requires
            z * t <= s * p,
            0 <= a * b,
    ;
    assert(b * t == t * b) by (nonlinear_arith);
    lemma_within_cancel((s * a) * (p * b), (o * b) * (c * t), z * a, o * c, t * b, k1 + k2);
}

/// One more part, from below.
proof fn lemma_more_lower(
    s: int,
    a: int,
    o: int,
    b: int,
    p: int,
    c: int,
    t: int,
    z: int,
    k1: nat,
    k2: nat,
)
    requires
        0 <= o,
        0 <= a,
        0 < b,
        0 <= c,
        0 < t,
        s * p <= z * t,
        at_most_within(o * b, s * a, k1),
        at_most_within(c * t, p * b, k2),
    ensures
        at_most_within(o * c, z * a, k1 + k2),
{
    assert(0 <= o * b && 0 <= c * t && 0 <= a * b && 0 < t * b) by (nonlinear_arith)
        requires
            0 <= o,
            0 <= a,
            0 < b,
            0 <= c,
            0 < t,
    ;
    lemma_within_product(o * b, s * a, k1, c * t, p * b, k2);
    lemma_swap(s, a, p, b);
    lemma_swap(o, b, c, t);
    lemma_swap(z, a, t, b);
    assert((s * p) * (a * b) <= (z * t) * (a * b)) by (nonlinear_arith)
        requires
            s * p <= z * t,
            0 <= a * b,
    ;
    assert(b * t == t * b) by (nonlinear_arith);
    lemma_within_cancel((o * b) * (c * t), (s * a) * (p * b), o * c, z * a, t * b, k1 + k2);
}

/// What a buy does to a market that donates nothing.
proof fn lemma_plain_buy(m: Market, lamports: u64)
    requires
        m.valid(),
        m.supply > 0,
        m.curve.buy_fee_floor_bps == 0,
        m.after_buy(lamports) is Some,
    ensures
        ({
            let n = m.after_buy(lamports)->0;
            let bps = m.curve.min_backing_bps;
            let f = pow_ratio_fixed(n.vault, m.vault, bps)->0;
            &&& n.valid()
            &&& n.curve.buy_fee_floor_bps == 0
            &&& n.curve.buy_fee_creator_bps == m.curve.buy_fee_creator_bps
            &&& n.curve.min_backing_bps == bps
            &&& 0 < m.vault < n.vault
            &&& n.vault == m.vault + m.net(lamports)
            &&& pow_ratio_fixed(n.vault, m.vault, bps) is Some
            &&& POW_ONE <= f
            &&& f * m.vault <= n.vault * POW_ONE
            &&& m.supply <= n.supply
            &&& n.supply * POW_ONE <= m.supply * f
            &&& m.supply * f < (n.supply + 1) * POW_ONE
        }),
{
    let n = m.after_buy(lamports)->0;
    let bps = m.curve.min_backing_bps;
    law_validity_is_kept(m, Step::Buy { lamports });
    assert(m.donation(lamports) == 0) by {
        assert(lamports as nat * 0 == 0);
    }
    assert(m.vault + 0 == m.vault);
    assert(n.vault == m.vault + m.net(lamports) as nat);
    lemma_factor_range(n.vault, m.vault, bps);
    lemma_scaled_supply(m.supply, pow_ratio_fixed(n.vault, m.vault, bps)->0);
}

/// The supply after the parts, with the units that rounding down may have cost:
/// each part costs less than one unit, which grows with the vault after it.
spec fn with_rounding(m: Market, n: Market, parts: nat) -> int {
    (n.supply * m.vault + parts * n.vault) as int
}

/// The supply after any number of parts follows the power law of the vault, up
/// to 48 steps from above and 231 from below for each part.
proof fn lemma_parts(m: Market, parts: Seq<u64>)
    requires
        m.valid(),
        m.supply > 0,
        m.curve.buy_fee_floor_bps == 0,
        m.after_buys(parts) is Some,
    ensures
        ({
            let n = m.after_buys(parts)->0;
            let ten = bps_unit();
            let w = m.curve.min_backing_bps as nat;
            &&& n.valid()
            &&& n.supply > 0
            &&& n.curve.buy_fee_floor_bps == 0
            &&& n.curve.buy_fee_creator_bps == m.curve.buy_fee_creator_bps
            &&& n.curve.min_backing_bps == m.curve.min_backing_bps
            &&& n.vault == m.vault + m.nets(parts)
            &&& m.vault <= n.vault
            &&& at_most_within(
                pow(n.supply as int, ten) * pow(m.vault as int, w),
                pow(m.supply as int, ten) * pow(n.vault as int, w),
                480_000 * parts.len(),
            )
            &&& at_most_within(
                pow((m.supply * m.vault) as int, ten) * pow(n.vault as int, w),
                pow(with_rounding(m, n, parts.len()), ten) * pow(m.vault as int, w),
                2_310_000 * parts.len(),
            )
        }),
    decreases parts.len(),
{
    let ten = bps_unit();
    let w = m.curve.min_backing_bps as nat;
    let k = parts.len();
    let n = m.after_buys(parts)->0;
    let grain = one();
    if k == 0 {
        lemma_pow0(grain);
        lemma_pow0(grain + 1);
        assert(480_000 * k == 0 && 2_310_000 * k == 0);
        assert(with_rounding(m, n, k) == m.supply * m.vault) by {
            assert(k * n.vault == 0) by (nonlinear_arith)
                requires
                    k == 0,
            ;
        }
    } else {
        let before = m.after_buys(parts.drop_last())->0;
        let j = (k - 1) as nat;
        lemma_parts(m, parts.drop_last());
        lemma_plain_buy(before, parts.last());
        let bps = m.curve.min_backing_bps;
        let f = pow_ratio_fixed(n.vault, before.vault, bps)->0 as int;
        lemma_factor_upper(n.vault, before.vault, bps);
        lemma_factor_lower(n.vault, before.vault, bps);
        assert(before.net(parts.last()) == m.net(parts.last()));
        let (v0, vb, vn) = (m.vault as int, before.vault as int, n.vault as int);
        let (sb, sn) = (before.supply as int, n.supply as int);
        let (tb, tn) = (with_rounding(m, before, j), with_rounding(m, n, k));
        lemma_pow_nonneg(v0, w);
        lemma_pow_positive(vb, w);
        lemma_pow_nonneg(vn, w);
        lemma_pow_positive(grain, ten);
        lemma_pow_nonneg(sb, ten);
        lemma_pow_nonneg(f, ten);
        lemma_raise_products(sn, grain, sb, f);
        lemma_more(
            pow(sb, ten),
            pow(v0, w),
            pow(m.supply as int, ten),
            pow(vb, w),
            pow(f, ten),
            pow(vn, w),
            pow(grain, ten),
            pow(sn, ten),
            480_000 * j,
            480_000,
        );
        assert(480_000 * j + 480_000 == 480_000 * k);
        lemma_rounding_grows(sb, sn, v0, vb, vn, f, j as int);
        assert(0 <= tb) by (nonlinear_arith)
            requires
                tb == sb * v0 + j * vb,
                0 <= sb,
                0 <= v0,
                0 <= vb,
                0 <= j,
        ;
        lemma_raise_products(tb, f, tn, grain);
        let start = (m.supply * m.vault) as int;
        lemma_pow_nonneg(start, ten);
        lemma_more_lower(
            pow(tb, ten),
            pow(v0, w),
            pow(start, ten),
            pow(vb, w),
            pow(f, ten),
            pow(vn, w),
            pow(grain, ten),
            pow(tn, ten),
            2_310_000 * j,
            2_310_000,
        );
        assert(2_310_000 * j + 2_310_000 == 2_310_000 * k);
    }
}

/// With its allowance for rounding the supply grows by at least the factor.
proof fn lemma_rounding_grows(sb: int, sn: int, v0: int, vb: int, vn: int, f: int, j: int)
    requires
        0 <= j,
        0 <= v0 <= vn,
        sb * f < (sn + 1) * one(),
        f * vb <= vn * one(),
    ensures
        (sb * v0 + j * vb) * f <= (sn * v0 + (j + 1) * vn) * one(),
{
    let n = one();
    assert((sb * v0 + j * vb) * f == (sb * f) * v0 + j * (f * vb)) by (nonlinear_arith);
    assert((sb * f) * v0 <= ((sn + 1) * n) * v0) by (nonlinear_arith)
        requires
            sb * f < (sn + 1) * n,
            0 <= v0,
    ;
    assert(j * (f * vb) <= j * (vn * n)) by (nonlinear_arith)
        requires
            f * vb <= vn * n,
            0 <= j,
    ;
    assert(v0 * n <= vn * n) by (nonlinear_arith)
        requires
            v0 <= vn,
            0 < n,
    ;
    assert(((sn + 1) * n) * v0 == (sn * v0) * n + v0 * n) by (nonlinear_arith);
    assert((sn * v0 + (j + 1) * vn) * n == (sn * v0) * n + j * (vn * n) + vn * n)
        by (nonlinear_arith);
}

/// Where buys donate nothing, buying in any number of parts comes to the supply
/// that one buy of the whole comes to, but for rounding: at most 48 parts in
/// `2^48` more for each part and 231 for the whole, and at most 231 less for
/// each part and 48 for the whole, and one unit for each, grown with the vault.
pub proof fn law_parts_agree_with_the_whole(m: Market, parts: Seq<u64>, whole: u64)
    requires
        m.valid(),
        m.supply > 0,
        m.curve.buy_fee_floor_bps == 0,
        m.nets(parts) == m.net(whole),
        m.after_buys(parts) is Some,
        m.after_buy(whole) is Some,
        231 * parts.len() + 231 < POW_ONE,
    ensures
        ({
            let split = m.after_buys(parts)->0;
            let once = m.after_buy(whole)->0;
            let n = parts.len();
            &&& split.vault == once.vault
            &&& split.supply * (POW_ONE - 48 * n - 231) <= (once.supply + 1) * POW_ONE
            &&& once.supply * m.vault * (POW_ONE - 231 * n - 48) <= (split.supply * m.vault + n
                * once.vault) * POW_ONE
        }),
{
    let split = m.after_buys(parts)->0;
    let once = m.after_buy(whole)->0;
    let ten = bps_unit();
    let bps = m.curve.min_backing_bps;
    let w = bps as nat;
    let k = parts.len();
    let n = one();
    lemma_parts(m, parts);
    lemma_plain_buy(m, whole);
    lemma_factor_upper(once.vault, m.vault, bps);
    lemma_factor_lower(once.vault, m.vault, bps);
    let f = pow_ratio_fixed(once.vault, m.vault, bps)->0 as int;
    let (v0, vn) = (m.vault as int, once.vault as int);
    let (s0, sn, s1) = (m.supply as int, split.supply as int, once.supply as int);
    let (a, c, t, q) = (pow(v0, w), pow(vn, w), pow(n, ten), pow(f, ten));
    lemma_pow_positive(v0, w);
    lemma_pow_positive(vn, w);
    lemma_pow_positive(n, ten);
    lemma_pow_nonneg(f, ten);
    assert(0 < c * t && 0 < c * a) by (nonlinear_arith)
        requires
            0 < a,
            0 < c,
            0 < t,
    ;
    let ca = c * a;
    // From above: s_n against the whole, one unit up.
    {
        let (z, o, y) = (pow(sn, ten), pow(s0, ten), pow(s1 + 1, ten));
        lemma_pow_nonneg(sn, ten);
        lemma_raise_products(s0, f, s1 + 1, n);
        assert(0 <= z * a) by (nonlinear_arith)
            requires
                0 <= z,
                0 < a,
        ;
        lemma_within_product(z * a, o * c, 480_000 * k, c * t, q * a, 2_310_000);
        lemma_swap(o, c, q, a);
        assert((o * q) * ca <= (y * t) * ca) by (nonlinear_arith)
            requires
                o * q <= y * t,
                0 < ca,
        ;
        let e = (48 * k + 231) as nat;
        lemma_finish(z * a, c * t, (o * c) * (q * a), z, y, t, ca, a, c, e * ten);
        lemma_step_root(sn, s1 + 1, e);
    }
    // From below: the whole against s_n with its allowance.
    {
        let start = s0 * v0;
        let top = with_rounding(m, split, k);
        let (z, o, y) = (pow(top, ten), pow(start, ten), pow(s1 * v0, ten));
        assert(0 < start && 0 < s1 * v0 && 0 < top && 0 <= s1 * v0) by (nonlinear_arith)
            requires
                start == s0 * v0,
                top == sn * v0 + k * vn,
                0 < s0,
                0 < s1,
                0 < sn,
                0 < v0,
                0 <= k,
                0 <= vn,
        ;
        assert((s1 * v0) * n <= start * f) by (nonlinear_arith)
            requires
                s1 * n <= s0 * f,
                start == s0 * v0,
                0 < v0,
        {
            assert((s1 * n) * v0 <= (s0 * f) * v0);
        }
        lemma_raise_products(s1 * v0, n, start, f);
        lemma_pow_nonneg(start, ten);
        assert(0 <= o * c && 0 <= q * a) by (nonlinear_arith)
            requires
                0 <= o,
                0 < c,
                0 <= q,
                0 < a,
        ;
        lemma_within_product(o * c, z * a, 2_310_000 * k, q * a, c * t, 480_000);
        lemma_swap(o, c, q, a);
        assert((y * t) * ca <= (o * q) * ca) by (nonlinear_arith)
            requires
                y * t <= o * q,
                0 < ca,
        ;
        let e = (231 * k + 48) as nat;
        lemma_finish_lower((o * c) * (q * a), z * a, c * t, y, z, t, ca, a, c, e * ten);
        lemma_step_root(s1 * v0, top, e);
    }
}

/// Cancels the vault's powers from above.
proof fn lemma_finish(
    za: int,
    ct: int,
    v: int,
    z: int,
    y: int,
    t: int,
    ca: int,
    a: int,
    c: int,
    k: nat,
)
    requires
        0 < t,
        0 < ca,
        za == z * a,
        ct == c * t,
        ca == c * a,
        v <= (y * t) * ca,
        at_most_within(za * ct, v, k),
    ensures
        at_most_within(z, y, k),
{
    let tc = t * ca;
    assert(0 < tc) by (nonlinear_arith)
        requires
            tc == t * ca,
            0 < t,
            0 < ca,
    ;
    assert(z * tc == za * ct && (y * t) * ca == y * tc) by (nonlinear_arith)
        requires
            za == z * a,
            ct == c * t,
            ca == c * a,
            tc == t * ca,
    ;
    lemma_within_cancel(za * ct, v, z, y, tc, k);
}

/// Cancels the vault's powers from below.
proof fn lemma_finish_lower(
    u: int,
    za: int,
    ct: int,
    y: int,
    z: int,
    t: int,
    ca: int,
    a: int,
    c: int,
    k: nat,
)
    requires
        0 < t,
        0 < ca,
        za == z * a,
        ct == c * t,
        ca == c * a,
        (y * t) * ca <= u,
        at_most_within(u, za * ct, k),
    ensures
        at_most_within(y, z, k),
{
    let tc = t * ca;
    assert(0 < tc) by (nonlinear_arith)
        requires
            tc == t * ca,
            0 < t,
            0 < ca,
    ;
    assert(z * tc == za * ct && (y * t) * ca == y * tc) by (nonlinear_arith)
        requires
            za == z * a,
            ct == c * t,
            ca == c * a,
            tc == t * ca,
    ;
    lemma_within_cancel(u, za * ct, y, z, tc, k);
}

/// Up to half a million parts, and where a unit for each of them, grown with the
/// vault, is small against the supply, buying in parts and buying at once differ
/// by less than a millionth of the supply.
pub proof fn law_parts_agree_to_a_millionth(m: Market, parts: Seq<u64>, whole: u64)
    requires
        m.valid(),
        m.supply > 0,
        m.curve.buy_fee_floor_bps == 0,
        m.nets(parts) == m.net(whole),
        m.after_buys(parts) is Some,
        m.after_buy(whole) is Some,
        parts.len() <= 500_000,
        ({
            let once = m.after_buy(whole)->0;
            4_000_000 * (parts.len() * once.vault) <= once.supply * m.vault
        }),
    ensures
        ({
            let split = m.after_buys(parts)->0;
            let once = m.after_buy(whole)->0;
            -once.supply < 1_000_000 * (split.supply - once.supply) < once.supply
        }),
{
    let split = m.after_buys(parts)->0;
    let once = m.after_buy(whole)->0;
    let k = parts.len() as int;
    let n = one();
    law_parts_agree_with_the_whole(m, parts, whole);
    lemma_plain_buy(m, whole);
    let (v0, vn) = (m.vault as int, once.vault as int);
    let (x, y) = (split.supply as int, once.supply as int);
    assert(1 <= k);
    assert(4_000_000 <= y) by (nonlinear_arith)
        requires
            4_000_000 * (k * vn) <= y * v0,
            1 <= k,
            0 < v0 < vn,
    {
        assert(v0 <= k * vn);
        assert(4_000_000 * v0 <= y * v0);
    }
    let e = 48 * k + 231;
    assert(1_000_000 * (x - y) < y) by (nonlinear_arith)
        requires
            x * (n - e) <= (y + 1) * n,
            0 <= e <= 24_000_231,
            4_000_000 <= y,
            0 < x,
            n == 281_474_976_710_656,
    {
        assert(x * (n - e) >= x * (n - 24_000_231));
    }
    let d = 231 * k + 48;
    let z = y * v0;
    assert(x * v0 * n >= z * (n - d) - k * vn * n) by (nonlinear_arith)
        requires
            z * (n - d) <= (x * v0 + k * vn) * n,
    ;
    assert(z * (n - d) >= z * (n - 115_500_048)) by (nonlinear_arith)
        requires
            0 <= d <= 115_500_048,
            0 <= z,
    ;
    assert(0 < z) by (nonlinear_arith)
        requires
            z == y * v0,
            0 < y,
            0 < v0,
    ;
    let (xv, kv) = (x * v0, k * vn);
    assert(xv * n >= z * (n - 115_500_048) - kv * n);
    assert(1_000_000 * xv > 999_999 * z) by (nonlinear_arith)
        requires
            xv * n >= z * (n - 115_500_048) - kv * n,
            4_000_000 * kv <= z,
            0 < z,
            n == 281_474_976_710_656,
    ;
    assert(1_000_000 * x > 999_999 * y) by (nonlinear_arith)
        requires
            1_000_000 * (x * v0) > 999_999 * (y * v0),
            0 < v0,
    {
        assert((1_000_000 * x) * v0 > (999_999 * y) * v0);
    }
}

} // verus!
