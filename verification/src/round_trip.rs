//! What a trader can gain or lose: round trips and split buys.

use crate::accuracy::lemma_factor_range;
use crate::growth::{lemma_factor_chord, lemma_factors_compose};
use crate::laws::{
    law_exit_value_is_a_ratchet, law_history, law_validity_is_kept, Market, Step,
};
use crate::market::{
    lemma_gross, lemma_scaled_supply, lemma_two_shares, minted, sell_gross, sell_payout, share,
};
use crate::q48::{pow_ratio_fixed, POW_ONE};
use vstd::prelude::*;

verus! {

impl Market {
    /// The lamports that a buyer gets back who buys for `lamports` and sells
    /// all units at once.
    pub open spec fn round_trip(self, lamports: u64) -> int {
        let bought = self.after_buy(lamports)->0;
        sell_payout(
            bought.curve,
            bought.vault,
            bought.supply,
            (bought.supply - self.supply) as nat,
        )
    }

    /// What rounding can cost a round trip, in lamports: three, the price of a
    /// unit, and the error of the power law on the vault.
    pub open spec fn rounding(self, lamports: u64) -> nat {
        let bought = self.after_buy(lamports)->0;
        3 + bought.vault / bought.supply + 231 * bought.vault / (POW_ONE as nat)
    }

    /// Both buy fees together, in basis points.
    pub open spec fn buy_fees(self) -> int {
        self.curve.buy_fee_creator_bps + self.curve.buy_fee_floor_bps
    }

    /// Both sell fees together, in basis points.
    pub open spec fn sell_fees(self) -> int {
        self.curve.sell_fee_creator_bps + self.curve.sell_fee_floor_bps
    }
}

/// What is left of an amount after two shares, scaled: at least the amount less
/// both rates.
proof fn lemma_after_shares(amount: nat, a: u16, b: u16)
    ensures
        10_000 * (amount - share(amount, a) - share(amount, b)) >= amount * (10_000 - a - b),
{
    let (x, y) = (amount * (a as nat), amount * (b as nat));
    assert(amount * (10_000 - a - b) == 10_000 * amount - x - y) by (nonlinear_arith)
        requires
            x == amount * (a as nat),
            y == amount * (b as nat),
    ;
}

/// A buyer who sells at once gets back at most what was paid.
///
/// Left out: an empty market that holds lamports. Its first buyer owns them.
pub proof fn law_round_trip_never_profits(m: Market, lamports: u64)
    requires
        m.valid(),
        m.after_buy(lamports) is Some,
        m.supply > 0 || m.vault == 0,
    ensures
        m.round_trip(lamports) <= lamports,
{
    let n = m.after_buy(lamports)->0;
    let out = (n.supply - m.supply) as nat;
    let g = sell_gross(n.vault, n.supply, out);
    let net = m.net(lamports);
    lemma_two_shares(lamports as nat, m.curve.buy_fee_creator_bps, m.curve.buy_fee_floor_bps);
    lemma_gross(n.vault, n.supply, out);
    if m.supply > 0 {
        let v0 = m.vault + m.donation(lamports);
        let bps = m.curve.min_backing_bps;
        let f = pow_ratio_fixed(n.vault, v0, bps)->0;
        assert(n.vault == v0 + net as nat);
        lemma_factor_range(n.vault, v0, bps);
        lemma_scaled_supply(m.supply, f);
        let (s, s1, vf, one) = (m.supply, n.supply, n.vault, POW_ONE as nat);
        assert(s1 * v0 * one <= s * vf * one) by {
            assert(s1 * one * v0 <= s * f * v0) by (nonlinear_arith)
                requires
                    s1 * one <= s * f,
            ;
            assert(s * f * v0 == s * (f * v0)) by (nonlinear_arith);
            assert(s * (f * v0) <= s * (vf * one)) by (nonlinear_arith)
                requires
                    f * v0 <= vf * one,
            ;
            assert(s1 * one * v0 == s1 * v0 * one) by (nonlinear_arith);
            assert(s * (vf * one) == s * vf * one) by (nonlinear_arith);
        }
        assert(g * s1 <= net * s1) by (nonlinear_arith)
            requires
                g * s1 <= out * vf,
                out == s1 - s,
                vf == v0 + net,
                s1 * v0 * one <= s * vf * one,
                one > 0,
        ;
        assert(g <= net) by (nonlinear_arith)
            requires
                g * s1 <= net * s1,
                s1 > 0,
        ;
    }
}

/// The lamports that freshly bought units stand for: `backing` of what minted
/// them, but for rounding.
proof fn lemma_gross_of_buy(m: Market, lamports: u64)
    requires
        m.valid(),
        m.supply > 0,
        m.after_buy(lamports) is Some,
    ensures
        ({
            let n = m.after_buy(lamports)->0;
            let g = sell_gross(n.vault, n.supply, (n.supply - m.supply) as nat);
            10_000 * (g + m.rounding(lamports)) >= m.curve.min_backing_bps * m.net(lamports)
        }),
{
    let n = m.after_buy(lamports)->0;
    let v0 = m.vault + m.donation(lamports);
    let net = m.net(lamports);
    let bps = m.curve.min_backing_bps;
    let out = (n.supply - m.supply) as nat;
    let g = sell_gross(n.vault, n.supply, out) as int;
    let f = pow_ratio_fixed(n.vault, v0, bps)->0 as int;
    assert(n.vault == v0 + net as nat);
    lemma_factor_range(n.vault, v0, bps);
    lemma_factor_chord(n.vault, v0, bps);
    lemma_scaled_supply(m.supply, f as nat);
    lemma_gross(n.vault, n.supply, out);
    let (s, s1, vf, one) = (m.supply as int, n.supply as int, n.vault as int, POW_ONE as int);
    let b = bps as int;
    // What the old supply keeps of the new vault.
    let kept = 10_000 * vf - b * net;
    assert(10_000 * vf * (one - 231) <= f * kept);
    assert(kept >= 0) by (nonlinear_arith)
        requires
            kept == 10_000 * vf - b * net,
            0 <= net <= vf,
            0 <= b <= 10_000,
    ;
    let c = 10_000 * vf;
    assert(c * (one - 231) * s <= (s1 + 1) * one * kept) by {
        assert(c * (one - 231) * s <= f * kept * s) by (nonlinear_arith)
            requires
                c * (one - 231) <= f * kept,
                s >= 0,
        ;
        assert(f * kept * s == s * f * kept) by (nonlinear_arith);
        assert(s * f * kept <= (s1 + 1) * one * kept) by (nonlinear_arith)
            requires
                s * f <= (s1 + 1) * one,
                kept >= 0,
        ;
    }
    assert(c * (one - 231) * s == c * s * one - 231 * (c * s)) by (nonlinear_arith);
    assert((s1 + 1) * one * kept == s1 * kept * one + kept * one) by (nonlinear_arith);
    assert(kept <= c) by (nonlinear_arith)
        requires
            kept == c - b * net,
            0 <= net,
            0 <= b,
    ;
    assert(kept * one <= c * one) by (nonlinear_arith)
        requires
            kept <= c,
            one >= 0,
    ;
    assert(c * s <= c * s1) by (nonlinear_arith)
        requires
            s <= s1,
            c >= 0,
    ;
    // The bought units, scaled.
    assert(c * s1 - c * s == 10_000 * (out * vf)) by (nonlinear_arith)
        requires
            out == s1 - s,
            c == 10_000 * vf,
    ;
    assert(s1 * kept == c * s1 - s1 * (b * net)) by (nonlinear_arith)
        requires
            kept == c - b * net,
    ;
    let a = s1 * (b * net);
    assert(s1 * kept * one == c * s1 * one - a * one) by (nonlinear_arith)
        requires
            s1 * kept == c * s1 - a,
    ;
    // a * one <= 10000 * (out * vf) * one + c * one + 231 * c * s1
    assert((c * s1 - c * s) * one == c * s1 * one - c * s * one) by (nonlinear_arith);
    assert(a * one <= 10_000 * (out * vf) * one + c * one + 231 * (c * s1));
    let q = vf / s1;
    let r = 231 * vf / one;
    assert(vf < (q + 1) * s1) by (nonlinear_arith)
        requires
            q == vf / s1,
            s1 > 0,
    ;
    assert(231 * vf < (r + 1) * one) by (nonlinear_arith)
        requires
            r == 231 * vf / one,
            one > 0,
    ;
    assert(231 * (c * s1) <= 10_000 * ((r + 1) * s1) * one) by {
        assert(231 * (c * s1) == 10_000 * (231 * vf * s1)) by (nonlinear_arith)
            requires
                c == 10_000 * vf,
        ;
        assert(231 * vf * s1 <= (r + 1) * one * s1) by (nonlinear_arith)
            requires
                231 * vf < (r + 1) * one,
                s1 >= 0,
        ;
        assert((r + 1) * one * s1 == (r + 1) * s1 * one) by (nonlinear_arith);
        assert(10_000 * ((r + 1) * s1) * one == 10_000 * ((r + 1) * s1 * one)) by (nonlinear_arith);
    }
    assert(c * one <= 10_000 * ((q + 1) * s1) * one) by (nonlinear_arith)
        requires
            c == 10_000 * vf,
            vf < (q + 1) * s1,
            one > 0,
    ;
    assert(10_000 * (out * vf) * one <= 10_000 * ((g + 1) * s1) * one) by (nonlinear_arith)
        requires
            out * vf < (g + 1) * s1,
            one > 0,
    ;
    let sum = (g + 1) * s1 + (q + 1) * s1 + (r + 1) * s1;
    assert(10_000 * sum * one == 10_000 * ((g + 1) * s1) * one + 10_000 * ((q + 1) * s1) * one
        + 10_000 * ((r + 1) * s1) * one) by (nonlinear_arith)
        requires
            sum == (g + 1) * s1 + (q + 1) * s1 + (r + 1) * s1,
    ;
    assert(a <= 10_000 * sum) by (nonlinear_arith)
        requires
            a * one <= 10_000 * sum * one,
            one > 0,
    ;
    let total = g + q + r + 3;
    assert(sum == total * s1) by (nonlinear_arith)
        requires
            sum == (g + 1) * s1 + (q + 1) * s1 + (r + 1) * s1,
            total == g + q + r + 3,
    ;
    assert(b * net <= 10_000 * total) by (nonlinear_arith)
        requires
            a == s1 * (b * net),
            a <= 10_000 * (total * s1),
            s1 > 0,
    ;
}

/// What a payout out of at least the gross value of fresh units is worth.
proof fn lemma_loss(m: Market, lamports: u64, gross: nat, payout: int)
    requires
        m.valid(),
        m.after_buy(lamports) is Some,
        ({
            let n = m.after_buy(lamports)->0;
            sell_gross(n.vault, n.supply, (n.supply - m.supply) as nat) <= gross
        }),
        gross * (10_000 - m.sell_fees()) <= 10_000 * payout,
    ensures
        lamports * (10_000 - m.buy_fees()) * m.curve.min_backing_bps * (10_000 - m.sell_fees())
            <= 1_000_000_000_000 * (payout + m.rounding(lamports)),
{
    let n = m.after_buy(lamports)->0;
    let out = (n.supply - m.supply) as nat;
    let g = sell_gross(n.vault, n.supply, out);
    let (net, slack) = (m.net(lamports), m.rounding(lamports) as int);
    let b = m.curve.min_backing_bps as int;
    let (j, k) = (10_000 - m.buy_fees(), 10_000 - m.sell_fees());
    lemma_two_shares(lamports as nat, m.curve.buy_fee_creator_bps, m.curve.buy_fee_floor_bps);
    lemma_after_shares(lamports as nat, m.curve.buy_fee_creator_bps, m.curve.buy_fee_floor_bps);
    lemma_gross(n.vault, n.supply, out);
    assert(10_000 * net >= lamports * j);
    if m.supply > 0 {
        lemma_gross_of_buy(m, lamports);
    } else {
        assert(b * net <= 10_000 * g) by (nonlinear_arith)
            requires
                0 <= b <= 10_000,
                0 <= net <= g,
        ;
    }
    assert(b * net <= 10_000 * (gross + slack));
    assert(slack * k <= 10_000 * slack) by (nonlinear_arith)
        requires
            k <= 10_000,
            slack >= 0,
    ;
    let paid = 10_000 * (gross + slack);
    assert((gross + slack) * k == gross * k + slack * k) by (nonlinear_arith);
    assert(paid * k == 10_000 * ((gross + slack) * k)) by (nonlinear_arith)
        requires
            paid == 10_000 * (gross + slack),
    ;
    assert(b * net * k <= paid * k) by (nonlinear_arith)
        requires
            b * net <= paid,
            k >= 0,
    ;
    assert(b * net * k <= 100_000_000 * (payout + slack));
    let lam = lamports as int;
    assert(lam * j * b * k == lam * j * (b * k)) by (nonlinear_arith);
    assert(lam * j * (b * k) <= 10_000 * net * (b * k)) by (nonlinear_arith)
        requires
            lam * j <= 10_000 * net,
            b >= 0,
            k >= 0,
    ;
    assert(10_000 * net * (b * k) == 10_000 * (b * net * k)) by (nonlinear_arith);
}

/// The worst case for any buyer: of what was paid, the fees of both sides and
/// the gap between price and floor are lost, and rounding, but no more; whether
/// the units are sold at once or after any steps that leave them in
/// circulation.
pub proof fn law_buyer_loss_is_bounded(m: Market, lamports: u64, steps: Seq<Step>)
    requires
        m.valid(),
        m.after_buy(lamports) is Some,
        ({
            let n = m.after_buy(lamports)->0;
            forall|i: int|
                0 <= i <= steps.len() ==> (#[trigger] n.after_all(steps.take(i))).supply >= n.supply
                    - m.supply
        }),
    ensures
        ({
            let n = m.after_buy(lamports)->0;
            let later = n.after_all(steps);
            let payout = sell_payout(
                later.curve,
                later.vault,
                later.supply,
                (n.supply - m.supply) as nat,
            );
            lamports * (10_000 - m.buy_fees()) * m.curve.min_backing_bps * (10_000
                - m.sell_fees()) <= 1_000_000_000_000 * (payout + m.rounding(lamports))
        }),
{
    let n = m.after_buy(lamports)->0;
    let later = n.after_all(steps);
    let out = (n.supply - m.supply) as nat;
    law_validity_is_kept(m, Step::Buy { lamports });
    law_history(n, steps);
    law_exit_value_is_a_ratchet(n, steps, out);
    let gross = sell_gross(later.vault, later.supply, out);
    lemma_after_shares(gross, m.curve.sell_fee_creator_bps, m.curve.sell_fee_floor_bps);
    lemma_loss(m, lamports, gross, sell_payout(later.curve, later.vault, later.supply, out));
}

/// The worst instant round trip.
pub proof fn law_round_trip_loss(m: Market, lamports: u64)
    requires
        m.valid(),
        m.after_buy(lamports) is Some,
    ensures
        lamports * (10_000 - m.buy_fees()) * m.curve.min_backing_bps * (10_000 - m.sell_fees())
            <= 1_000_000_000_000 * (m.round_trip(lamports) + m.rounding(lamports)),
{
    let n = m.after_buy(lamports)->0;
    let gross = sell_gross(n.vault, n.supply, (n.supply - m.supply) as nat);
    lemma_after_shares(gross, m.curve.sell_fee_creator_bps, m.curve.sell_fee_floor_bps);
    lemma_loss(m, lamports, gross, m.round_trip(lamports));
}

/// With fees of at most 3% and 6%, at the lowest backing a launch can have or
/// above it, a round trip returns three quarters, but for rounding.
pub proof fn law_platform_loss(m: Market, lamports: u64)
    requires
        m.valid(),
        m.after_buy(lamports) is Some,
        m.buy_fees() <= 300,
        m.sell_fees() <= 600,
    ensures
        75 * lamports <= 100 * (m.round_trip(lamports) + m.rounding(lamports)),
{
    law_round_trip_loss(m, lamports);
    lemma_loss_figures(
        lamports as int,
        10_000 - m.buy_fees(),
        m.curve.min_backing_bps as int,
        10_000 - m.sell_fees(),
        8_250,
    );
    let (x, back) = (lamports as int, m.round_trip(lamports) + m.rounding(lamports));
    assert(x * (9_700 * 8_250 * 9_400) == 752_235_000_000 * x) by (nonlinear_arith);
    assert(752_235_000_000 * x <= 1_000_000_000_000 * back);
}

/// With the same fees and a backing of 93.5%, a round trip returns 85%, but for
/// rounding.
pub proof fn law_main_token_loss(m: Market, lamports: u64)
    requires
        m.valid(),
        m.after_buy(lamports) is Some,
        m.buy_fees() <= 300,
        m.sell_fees() <= 600,
        m.curve.min_backing_bps >= 9_350,
    ensures
        85 * lamports <= 100 * (m.round_trip(lamports) + m.rounding(lamports)),
{
    law_round_trip_loss(m, lamports);
    lemma_loss_figures(
        lamports as int,
        10_000 - m.buy_fees(),
        m.curve.min_backing_bps as int,
        10_000 - m.sell_fees(),
        9_350,
    );
    let (x, back) = (lamports as int, m.round_trip(lamports) + m.rounding(lamports));
    assert(x * (9_700 * 9_350 * 9_400) == 852_533_000_000 * x) by (nonlinear_arith);
    assert(852_533_000_000 * x <= 1_000_000_000_000 * back);
}

/// What remains of `x` after the fees and the gap.
proof fn lemma_loss_figures(x: int, j: int, b: int, k: int, least: int)
    requires
        x >= 0,
        j >= 9_700,
        b >= least >= 0,
        k >= 9_400,
    ensures
        x * j * b * k >= x * (9_700 * least * 9_400),
{
    assert(x * j >= x * 9_700) by (nonlinear_arith)
        requires
            x >= 0,
            j >= 9_700,
    ;
    assert(x * j * b >= x * 9_700 * least) by (nonlinear_arith)
        requires
            x * j >= x * 9_700,
            x * 9_700 >= 0,
            b >= least >= 0,
    ;
    assert(x * 9_700 * least >= 0) by (nonlinear_arith)
        requires
            x >= 0,
            least >= 0,
    ;
    assert(x * j * b * k >= x * 9_700 * least * 9_400) by (nonlinear_arith)
        requires
            x * j * b >= x * 9_700 * least,
            x * 9_700 * least >= 0,
            k >= 9_400,
    ;
    assert(x * 9_700 * least * 9_400 == x * (9_700 * least * 9_400)) by (nonlinear_arith);
}

/// Where buys donate nothing, buying in two steps or in one comes to the same
/// supply, but for rounding: a relative 327 and 510 parts in `2^48`, and the
/// units lost to rounding down.
pub proof fn law_split_buys_agree(m: Market, first: u64, second: u64, whole: u64)
    requires
        m.valid(),
        m.supply > 0,
        m.curve.buy_fee_floor_bps == 0,
        m.net(first) + m.net(second) == m.net(whole),
        m.after_buy(first) is Some,
        (m.after_buy(first)->0).after_buy(second) is Some,
        m.after_buy(whole) is Some,
    ensures
        ({
            let a = m.after_buy(first)->0;
            let split = a.after_buy(second)->0;
            let one = m.after_buy(whole)->0;
            let step = pow_ratio_fixed(split.vault, a.vault, m.curve.min_backing_bps)->0;
            &&& split.vault == one.vault
            &&& split.supply * (POW_ONE - 327) <= (one.supply + 1) * POW_ONE
            &&& one.supply * (POW_ONE - 510) <= (split.supply + 1) * POW_ONE + step
        }),
{
    let a = m.after_buy(first)->0;
    let split = a.after_buy(second)->0;
    let one = m.after_buy(whole)->0;
    let bps = m.curve.min_backing_bps;
    assert(m.donation(first) == 0 && m.donation(whole) == 0 && a.donation(second) == 0) by {
        assert(first as nat * 0 == 0 && second as nat * 0 == 0 && whole as nat * 0 == 0);
    }
    assert(a.net(second) == m.net(second));
    assert(a.vault == m.vault + m.net(first) as nat);
    assert(split.vault == a.vault + m.net(second) as nat);
    assert(one.vault == m.vault + m.net(whole) as nat);
    assert(m.vault + 0 == m.vault && a.vault + 0 == a.vault);
    let f1 = pow_ratio_fixed(a.vault, m.vault, bps)->0 as int;
    let f2 = pow_ratio_fixed(split.vault, a.vault, bps)->0 as int;
    let f = pow_ratio_fixed(one.vault, m.vault, bps)->0 as int;
    lemma_factors_compose(m.vault, a.vault, split.vault, bps);
    lemma_factor_range(a.vault, m.vault, bps);
    lemma_factor_range(split.vault, a.vault, bps);
    lemma_factor_range(one.vault, m.vault, bps);
    lemma_scaled_supply(m.supply, f1 as nat);
    lemma_scaled_supply(a.supply, f2 as nat);
    lemma_scaled_supply(m.supply, f as nat);
    let (s, s1, s2, w) = (m.supply as int, a.supply as int, split.supply as int, one.supply as int);
    let n = POW_ONE as int;
    assert(s1 * n <= s * f1 && s * f1 < (s1 + 1) * n);
    assert(s2 * n <= s1 * f2 && s1 * f2 < (s2 + 1) * n);
    assert(w * n <= s * f && s * f < (w + 1) * n);
    let h = f1 * f2;
    let c = n - 327;
    assert(s2 * n * n <= s * h) by {
        assert(s2 * n * n <= s1 * f2 * n) by (nonlinear_arith)
            requires
                s2 * n <= s1 * f2,
                n > 0,
        ;
        assert(s1 * f2 * n == s1 * n * f2) by (nonlinear_arith);
        assert(s1 * n * f2 <= s * f1 * f2) by (nonlinear_arith)
            requires
                s1 * n <= s * f1,
                f2 >= 0,
        ;
        assert(s * f1 * f2 == s * h) by (nonlinear_arith)
            requires
                h == f1 * f2,
        ;
    }
    assert(s2 * c <= (w + 1) * n) by {
        let nn = n * n;
        assert(s2 * n * n == s2 * nn) by (nonlinear_arith)
            requires
                nn == n * n,
        ;
        assert(s2 * nn * c <= s * h * c) by (nonlinear_arith)
            requires
                s2 * nn <= s * h,
                c >= 0,
        ;
        assert(s * h * c == s * (h * c)) by (nonlinear_arith);
        assert(f * n * n == f * nn) by (nonlinear_arith)
            requires
                nn == n * n,
        ;
        assert(s * (h * c) <= s * (f * nn)) by (nonlinear_arith)
            requires
                h * c <= f * nn,
                s >= 0,
        ;
        assert(s * (f * nn) == s * f * nn) by (nonlinear_arith);
        assert(s * f * nn <= (w + 1) * n * nn) by (nonlinear_arith)
            requires
                s * f < (w + 1) * n,
                nn >= 0,
        ;
        assert(s2 * nn * c == s2 * c * nn) by (nonlinear_arith);
        assert(nn > 0) by (nonlinear_arith)
            requires
                nn == n * n,
                n > 0,
        ;
        assert(s2 * c <= (w + 1) * n) by (nonlinear_arith)
            requires
                s2 * c * nn <= (w + 1) * n * nn,
                nn > 0,
        ;
    }
    let d = n - 510;
    assert(w * d <= (s2 + 1) * n + f2) by {
        assert(w * n * d <= s * f * d) by (nonlinear_arith)
            requires
                w * n <= s * f,
                d >= 0,
        ;
        assert(s * f * d == s * (f * d)) by (nonlinear_arith);
        assert(s * (f * d) <= s * h) by (nonlinear_arith)
            requires
                f * d <= h,
                s >= 0,
        ;
        assert(s * h == s * f1 * f2) by (nonlinear_arith)
            requires
                h == f1 * f2,
        ;
        assert(s * f1 * f2 <= (s1 + 1) * n * f2) by (nonlinear_arith)
            requires
                s * f1 < (s1 + 1) * n,
                f2 >= 0,
        ;
        assert((s1 + 1) * n * f2 == (s1 * f2 + f2) * n) by (nonlinear_arith);
        assert((s1 * f2 + f2) * n <= ((s2 + 1) * n + f2) * n) by (nonlinear_arith)
            requires
                s1 * f2 < (s2 + 1) * n,
                n > 0,
        ;
        assert(w * n * d == w * d * n) by (nonlinear_arith);
        assert(w * d <= (s2 + 1) * n + f2) by (nonlinear_arith)
            requires
                w * d * n <= ((s2 + 1) * n + f2) * n,
                n > 0,
        ;
    }
}

} // verus!
