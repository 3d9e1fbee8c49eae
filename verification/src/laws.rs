//! What holds of a market through every sequence of trades.

use crate::accuracy::lemma_factor_range;
use crate::market::{
    buy_result, curve_after_buy, floor_price, governor_price, lemma_at_most_quotient,
    lemma_floor_price_le, lemma_gross, lemma_quotient, lemma_scaled_supply, lemma_two_shares,
    minted, sell_fee, sell_gross, sell_kept, sell_payout, share,
};
use crate::q48::{pow_ratio_fixed, POW_ONE};
use crate::state::{Curve, E18};
use vstd::prelude::*;

verus! {

/// A launched token: its curve, the lamports that back it and the units that
/// exist.
pub struct Market {
    pub curve: Curve,
    pub vault: nat,
    pub supply: nat,
}

/// What can happen to a market.
pub enum Step {
    Buy { lamports: u64 },
    Sell { units: u64 },
    /// Anyone may send lamports to the vault.
    Donate { lamports: u64 },
}

impl Market {
    /// The lamports of a buy that are donated to the vault.
    pub open spec fn donation(self, lamports: u64) -> nat {
        share(lamports as nat, self.curve.buy_fee_floor_bps)
    }

    /// The lamports of a buy that go to the creator.
    pub open spec fn buy_fee(self, lamports: u64) -> nat {
        share(lamports as nat, self.curve.buy_fee_creator_bps)
    }

    /// The lamports of a buy that mint.
    pub open spec fn net(self, lamports: u64) -> int {
        lamports - self.buy_fee(lamports) - self.donation(lamports)
    }

    /// The units and the price that a buy yields; `None` where it fails.
    pub open spec fn quote(self, lamports: u64) -> Option<(nat, nat)> {
        if self.net(lamports) <= 0 {
            None
        } else {
            match buy_result(
                self.curve,
                self.vault,
                self.supply,
                self.donation(lamports),
                self.net(lamports) as nat,
                0,
            ) {
                Ok(q) => Some(q),
                Err(_) => None,
            }
        }
    }

    /// The market after a buy; `None` where it fails.
    pub open spec fn after_buy(self, lamports: u64) -> Option<Market> {
        match self.quote(lamports) {
            None => None,
            Some((out, price)) => Some(
                Market {
                    curve: curve_after_buy(self.curve, price, self.net(lamports) as nat),
                    vault: (self.vault + self.donation(lamports) + self.net(lamports)) as nat,
                    supply: self.supply + out,
                },
            ),
        }
    }

    /// The lamports that leave the vault in a sell.
    pub open spec fn vault_out(self, units: u64) -> int {
        sell_payout(self.curve, self.vault, self.supply, units as nat) + sell_fee(
            self.curve,
            self.vault,
            self.supply,
            units as nat,
        )
    }

    /// The market after a sell; `None` where it fails.
    pub open spec fn after_sell(self, units: u64) -> Option<Market> {
        if units == 0 || units > self.supply {
            None
        } else {
            Some(
                Market {
                    curve: self.curve,
                    vault: (self.vault - self.vault_out(units)) as nat,
                    supply: (self.supply - units) as nat,
                },
            )
        }
    }

    /// The market after a step; `None` where it fails.
    pub open spec fn after(self, step: Step) -> Option<Market> {
        match step {
            Step::Buy { lamports } => self.after_buy(lamports),
            Step::Sell { units } => self.after_sell(units),
            Step::Donate { lamports } => Some(
                Market { vault: self.vault + lamports as nat, ..self },
            ),
        }
    }

    /// The market after some steps. One that fails changes nothing.
    pub open spec fn after_all(self, steps: Seq<Step>) -> Market
        decreases steps.len(),
    {
        if steps.len() == 0 {
            self
        } else {
            let before = self.after_all(steps.drop_last());
            match before.after(steps.last()) {
                Some(m) => m,
                None => before,
            }
        }
    }

    /// The floor backs the governor's share of the price.
    pub open spec fn governed(self) -> bool {
        self.supply > 0 ==> self.curve.price_fp * self.curve.min_backing_bps <= floor_price(
            self.vault,
            self.supply,
        ) * 10_000
    }

    /// What a launch establishes and every step keeps: rates and price inside
    /// their caps, and the governor.
    pub open spec fn valid(self) -> bool {
        &&& self.curve.well_formed()
        &&& self.governed()
    }

    /// The floor of `other` is at least that of `self`: lamports per unit,
    /// without rounding. An empty market has none.
    pub open spec fn floor_at_most(self, other: Market) -> bool {
        self.supply > 0 && other.supply > 0 ==> self.vault * other.supply <= other.vault
            * self.supply
    }

    /// The floor of `other` is above that of `self`.
    pub open spec fn floor_below(self, other: Market) -> bool {
        self.supply > 0 && other.supply > 0 && self.vault * other.supply < other.vault
            * self.supply
    }
}

// ---------------------------------------------------------------------------
// Arithmetic
// ---------------------------------------------------------------------------

/// The parts of a buy make up the lamports paid.
proof fn lemma_parts(m: Market, lamports: u64)
    requires
        m.valid(),
    ensures
        m.net(lamports) >= 0,
        m.net(lamports) + m.donation(lamports) + m.buy_fee(lamports) == lamports,
{
    lemma_two_shares(
        lamports as nat,
        m.curve.buy_fee_creator_bps,
        m.curve.buy_fee_floor_bps,
    );
}

/// The supply after a buy grows no faster than the vault does over the
/// donation: `supply' * (vault + donation) <= supply * vault'`.
proof fn lemma_mint_rounds_down(m: Market, lamports: u64)
    requires
        m.valid(),
        m.supply > 0,
        m.after_buy(lamports) is Some,
    ensures
        ({
            let n = m.after_buy(lamports)->0;
            n.supply * (m.vault + m.donation(lamports)) <= m.supply * n.vault
        }),
{
    let n = m.after_buy(lamports)->0;
    let v0 = m.vault + m.donation(lamports);
    let net = m.net(lamports) as nat;
    let bps = m.curve.min_backing_bps;
    let f = pow_ratio_fixed(v0 + net, v0, bps)->0;
    let one = POW_ONE as nat;
    lemma_factor_range(v0 + net, v0, bps);
    lemma_scaled_supply(m.supply, f);
    let (s, s1, vf) = (m.supply, n.supply, n.vault);
    assert(vf == v0 + net);
    assert(s1 * one <= s * f);
    assert(s1 * one * v0 <= s * f * v0) by (nonlinear_arith)
        requires
            s1 * one <= s * f,
    ;
    assert(s * f * v0 == s * (f * v0)) by (nonlinear_arith);
    assert(s * (f * v0) <= s * (vf * one)) by (nonlinear_arith)
        requires
            f * v0 <= vf * one,
    ;
    assert(s1 * one * v0 == s1 * v0 * one) by (nonlinear_arith);
    assert(s * (vf * one) == s * vf * one) by (nonlinear_arith);
    assert(s1 * v0 <= s * vf) by (nonlinear_arith)
        requires
            s1 * v0 * one <= s * vf * one,
            one > 0,
    ;
}

// ---------------------------------------------------------------------------
// The floor
// ---------------------------------------------------------------------------

/// A buy never lowers the floor, and raises it where it donates: the supply
/// grows no faster than the vault does over the donation.
pub proof fn law_buy_keeps_floor(m: Market, lamports: u64)
    requires
        m.valid(),
        m.after_buy(lamports) is Some,
    ensures
        m.floor_at_most(m.after_buy(lamports)->0),
        m.supply > 0 && m.donation(lamports) > 0 ==> m.floor_below(m.after_buy(lamports)->0),
        m.supply > 0 ==> ({
            let n = m.after_buy(lamports)->0;
            n.supply * (m.vault + m.donation(lamports)) <= m.supply * n.vault
        }),
{
    let n = m.after_buy(lamports)->0;
    if m.supply > 0 {
        lemma_mint_rounds_down(m, lamports);
        let (v, d, s, s1, vf) = (m.vault, m.donation(lamports), m.supply, n.supply, n.vault);
        assert(v * s1 <= vf * s) by (nonlinear_arith)
            requires
                s1 * (v + d) <= s * vf,
        ;
        if d > 0 {
            assert(v * s1 < vf * s) by (nonlinear_arith)
                requires
                    s1 * (v + d) <= s * vf,
                    d > 0,
                    s1 > 0,
            ;
        }
    }
}

/// A sell never lowers the floor, and raises it where it leaves a share behind,
/// by at least that share.
pub proof fn law_sell_keeps_floor(m: Market, units: u64)
    requires
        m.valid(),
        m.after_sell(units) is Some,
    ensures
        m.floor_at_most(m.after_sell(units)->0),
        sell_kept(m.curve, m.vault, m.supply, units as nat) > 0 ==> m.floor_below(
            m.after_sell(units)->0,
        ),
        ({
            let n = m.after_sell(units)->0;
            let kept = sell_kept(m.curve, m.vault, m.supply, units as nat);
            m.vault * n.supply + kept * m.supply <= n.vault * m.supply
        }),
{
    let n = m.after_sell(units)->0;
    let kept = sell_kept(m.curve, m.vault, m.supply, units as nat);
    let (v, s, g) = (m.vault, m.supply, sell_gross(m.vault, m.supply, units as nat));
    lemma_gross(v, s, units as nat);
    lemma_two_shares(g, m.curve.sell_fee_creator_bps, m.curve.sell_fee_floor_bps);
    assert(n.vault == v - g + kept);
    let (w, t, u) = (n.vault, n.supply, units as nat);
    assert(v * t + kept * s <= w * s) by (nonlinear_arith)
        requires
            w == v - g + kept,
            t == s - u,
            g * s <= u * v,
    ;
    assert(kept > 0 ==> kept * s > 0) by (nonlinear_arith)
        requires
            s > 0,
    ;
    assert(kept * s >= 0) by (nonlinear_arith);
    if kept > 0 {
        assert(u < s);
    }
}

/// A donation never lowers the floor.
pub proof fn law_donation_keeps_floor(m: Market, lamports: u64)
    ensures
        m.after(Step::Donate { lamports }) is Some,
        m.floor_at_most(m.after(Step::Donate { lamports })->0),
{
    let (v, s, d) = (m.vault, m.supply, lamports as nat);
    assert(v * s <= (v + d) * s) by (nonlinear_arith);
}

// ---------------------------------------------------------------------------
// The price
// ---------------------------------------------------------------------------

/// The first units are minted at no less than the quoted price, so that the
/// governor's price is at least that.
proof fn lemma_genesis_price(m: Market, lamports: u64)
    requires
        m.valid(),
        m.supply == 0,
        m.after_buy(lamports) is Some,
    ensures
        ({
            let n = m.after_buy(lamports)->0;
            m.curve.price_fp <= governor_price(n.vault, n.supply, m.curve.min_backing_bps)
        }),
{
    let n = m.after_buy(lamports)->0;
    let net = m.net(lamports) as nat;
    let e = E18 as nat;
    let p = m.curve.price_fp as nat;
    let bps = m.curve.min_backing_bps as nat;
    let out = n.supply;
    lemma_quotient(net * e, p);
    assert(out * p <= net * e);
    assert(net * e <= n.vault * e) by (nonlinear_arith)
        requires
            net <= n.vault,
    ;
    assert(p * out == out * p) by (nonlinear_arith);
    lemma_at_most_quotient(p, n.vault * e, out);
    let nav = floor_price(n.vault, n.supply);
    assert(p * bps <= nav * 10_000) by (nonlinear_arith)
        requires
            p <= nav,
            bps <= 10_000,
    ;
    lemma_at_most_quotient(p, nav * 10_000, bps);
}

/// After a buy the price is the floor over the backing, no more and no less.
pub proof fn law_buy_pins_price(m: Market, lamports: u64)
    requires
        m.valid(),
        m.after_buy(lamports) is Some,
    ensures
        ({
            let n = m.after_buy(lamports)->0;
            n.curve.price_fp == governor_price(n.vault, n.supply, n.curve.min_backing_bps)
        }),
{
    let n = m.after_buy(lamports)->0;
    let bps = m.curve.min_backing_bps as nat;
    let p = m.curve.price_fp as nat;
    if m.supply == 0 {
        lemma_genesis_price(m, lamports);
    } else {
        law_buy_keeps_floor(m, lamports);
        lemma_floor_price_le(m.vault, m.supply, n.vault, n.supply);
        lemma_at_most_quotient(p, floor_price(n.vault, n.supply) * 10_000, bps);
    }
}

/// No step lowers the price, and only a buy moves it.
pub proof fn law_price_never_falls(m: Market, step: Step)
    requires
        m.after(step) is Some,
    ensures
        m.curve.price_fp <= (m.after(step)->0).curve.price_fp,
        !(step is Buy) ==> m.curve.price_fp == (m.after(step)->0).curve.price_fp,
{
}

/// A launch has no supply yet, so that the governor asks nothing of it.
pub proof fn law_launch_is_valid(curve: Curve, vault: nat)
    requires
        curve.well_formed(),
    ensures
        (Market { curve, vault, supply: 0 }).valid(),
{
}

/// Every step keeps the rates and the price inside their caps, and the floor at
/// the governor's share of the price or above.
pub proof fn law_validity_is_kept(m: Market, step: Step)
    requires
        m.valid(),
        m.after(step) is Some,
    ensures
        (m.after(step)->0).valid(),
{
    let n = m.after(step)->0;
    let p = m.curve.price_fp as nat;
    let bps = m.curve.min_backing_bps as nat;
    match step {
        Step::Buy { lamports } => {
            law_buy_pins_price(m, lamports);
            lemma_quotient(floor_price(n.vault, n.supply) * 10_000, bps);
            let q = n.curve.price_fp as nat;
            assert(q * bps == n.curve.price_fp * n.curve.min_backing_bps);
        },
        Step::Sell { units } => {
            law_sell_keeps_floor(m, units);
            if n.supply > 0 {
                lemma_floor_price_le(m.vault, m.supply, n.vault, n.supply);
            }
        },
        Step::Donate { lamports } => {
            law_donation_keeps_floor(m, lamports);
            if n.supply > 0 {
                lemma_floor_price_le(m.vault, m.supply, n.vault, n.supply);
            }
        },
    }
}

/// A step changes nothing of the curve but its price and its volume.
pub proof fn law_configuration_is_fixed(m: Market, step: Step)
    requires
        m.after(step) is Some,
    ensures
        ({
            let c = (m.after(step)->0).curve;
            c == (Curve { price_fp: c.price_fp, cum_vol: c.cum_vol, ..m.curve })
        }),
        m.curve.cum_vol <= (m.after(step)->0).curve.cum_vol,
{
}

/// After a sell that leaves a share behind, the next buy quotes at least the
/// governor price of the raised floor. That is above the price before the sell,
/// as soon as the share shows in the rounded floor: one lamport does for up to
/// `10^18` remaining units.
pub proof fn law_sells_raise_the_next_price(m: Market, units: u64, lamports: u64)
    requires
        m.valid(),
        m.after_sell(units) is Some,
        sell_kept(m.curve, m.vault, m.supply, units as nat) > 0,
        (m.after_sell(units)->0).after_buy(lamports) is Some,
    ensures
        ({
            let kept = sell_kept(m.curve, m.vault, m.supply, units as nat);
            let sold = m.after_sell(units)->0;
            let bought = sold.after_buy(lamports)->0;
            let raised = governor_price(sold.vault, sold.supply, m.curve.min_backing_bps);
            &&& m.floor_below(sold)
            &&& m.curve.price_fp <= raised <= bought.curve.price_fp
            &&& sold.supply <= kept * E18 ==> m.curve.price_fp < raised
        }),
{
    let kept = sell_kept(m.curve, m.vault, m.supply, units as nat);
    let sold = m.after_sell(units)->0;
    let bought = sold.after_buy(lamports)->0;
    let bps = m.curve.min_backing_bps as nat;
    let p = m.curve.price_fp as nat;
    law_sell_keeps_floor(m, units);
    law_validity_is_kept(m, Step::Sell { units });
    law_buy_pins_price(sold, lamports);
    law_buy_keeps_floor(sold, lamports);
    lemma_floor_price_le(sold.vault, sold.supply, bought.vault, bought.supply);
    let (before, after, last) = (
        floor_price(m.vault, m.supply),
        floor_price(sold.vault, sold.supply),
        floor_price(bought.vault, bought.supply),
    );
    lemma_quotient(after * 10_000, bps);
    lemma_at_most_quotient(after * 10_000 / bps, last * 10_000, bps);
    lemma_floor_price_le(m.vault, m.supply, sold.vault, sold.supply);
    lemma_at_most_quotient(p, after * 10_000, bps);
    if sold.supply <= kept * E18 {
        // The rounded floor rises by one at least.
        let (v, s, w, t, e) = (m.vault, m.supply, sold.vault, sold.supply, E18 as nat);
        lemma_quotient(v * e, s);
        assert((before + 1) * t <= w * e) by {
            assert(before * s * t <= v * e * t) by (nonlinear_arith)
                requires
                    before * s <= v * e,
            ;
            assert(t * s <= kept * e * s) by (nonlinear_arith)
                requires
                    t <= kept * e,
            ;
            assert((v * t + kept * s) * e <= w * s * e) by (nonlinear_arith)
                requires
                    v * t + kept * s <= w * s,
            ;
            assert((v * t + kept * s) * e == v * e * t + kept * e * s) by (nonlinear_arith);
            assert((before + 1) * t * s == before * s * t + t * s) by (nonlinear_arith);
            assert(w * s * e == w * e * s) by (nonlinear_arith);
            let (x, y) = ((before + 1) * t, w * e);
            assert(x <= y) by (nonlinear_arith)
                requires
                    x * s <= y * s,
                    s > 0,
            ;
        }
        lemma_at_most_quotient(before + 1, w * e, t);
        assert(p * bps <= before * 10_000);
        assert((p + 1) * bps <= after * 10_000) by (nonlinear_arith)
            requires
                p * bps <= before * 10_000,
                before + 1 <= after,
                bps <= 10_000,
        ;
        lemma_at_most_quotient(p + 1, after * 10_000, bps);
    }
}

// ---------------------------------------------------------------------------
// The vault
// ---------------------------------------------------------------------------

/// Holders can always sell: the vault has what the sell pays out, and pays out
/// no more than that.
pub proof fn law_sell_is_always_open(m: Market, units: u64)
    requires
        m.valid(),
        0 < units <= m.supply,
    ensures
        m.after_sell(units) is Some,
        0 <= sell_payout(m.curve, m.vault, m.supply, units as nat),
        m.vault_out(units) <= m.vault,
        (m.after_sell(units)->0).vault + m.vault_out(units) == m.vault,
        (m.after_sell(units)->0).supply + units == m.supply,
{
    lemma_gross(m.vault, m.supply, units as nat);
    lemma_two_shares(
        sell_gross(m.vault, m.supply, units as nat),
        m.curve.sell_fee_creator_bps,
        m.curve.sell_fee_floor_bps,
    );
}

/// When the last units leave, all that backed them leaves: no supply, no
/// backing.
pub proof fn law_full_exit_empties_vault(m: Market, units: u64)
    requires
        m.valid(),
        0 < units == m.supply,
    ensures
        m.vault_out(units) == m.vault,
        (m.after_sell(units)->0).supply == 0,
        (m.after_sell(units)->0).vault == 0,
{
    lemma_gross(m.vault, m.supply, units as nat);
    lemma_two_shares(
        m.vault,
        m.curve.sell_fee_creator_bps,
        m.curve.sell_fee_floor_bps,
    );
}

/// Of what a buyer pays, the creator gets the flow fee and the vault the rest.
pub proof fn law_buy_conserves(m: Market, lamports: u64)
    requires
        m.valid(),
        m.after_buy(lamports) is Some,
    ensures
        (m.after_buy(lamports)->0).vault + m.buy_fee(lamports) == m.vault + lamports,
{
    lemma_parts(m, lamports);
}

/// Lamports leave the vault by sells alone.
pub proof fn law_only_sells_debit(m: Market, step: Step)
    requires
        m.valid(),
        m.after(step) is Some,
    ensures
        (m.after(step)->0).vault < m.vault ==> step is Sell,
{
    match step {
        Step::Buy { lamports } => {
            lemma_parts(m, lamports);
        },
        _ => {},
    }
}

// ---------------------------------------------------------------------------
// Histories
// ---------------------------------------------------------------------------

/// Through any sequence of steps the market stays valid, the price never falls
/// and the configuration stays what it was.
pub proof fn law_history(m: Market, steps: Seq<Step>)
    requires
        m.valid(),
    ensures
        m.after_all(steps).valid(),
        m.curve.price_fp <= m.after_all(steps).curve.price_fp,
        ({
            let c = m.after_all(steps).curve;
            c == (Curve { price_fp: c.price_fp, cum_vol: c.cum_vol, ..m.curve })
        }),
    decreases steps.len(),
{
    if steps.len() > 0 {
        let before = m.after_all(steps.drop_last());
        law_history(m, steps.drop_last());
        if before.after(steps.last()) is Some {
            law_validity_is_kept(before, steps.last());
            law_price_never_falls(before, steps.last());
            law_configuration_is_fixed(before, steps.last());
        }
    }
}

/// Through any sequence of steps that leaves some units in circulation, the
/// floor never falls.
pub proof fn law_floor_history(m: Market, steps: Seq<Step>)
    requires
        m.valid(),
        forall|k: int| 0 <= k <= steps.len() ==> (#[trigger] m.after_all(steps.take(k))).supply > 0,
    ensures
        m.floor_at_most(m.after_all(steps)),
    decreases steps.len(),
{
    let n = m.after_all(steps);
    if steps.len() > 0 {
        let early = steps.drop_last();
        let before = m.after_all(early);
        let len = steps.len() as int;
        assert forall|k: int| 0 <= k <= early.len() implies (#[trigger] m.after_all(
            early.take(k),
        )).supply > 0 by {
            assert(early.take(k) =~= steps.take(k));
            assert(m.after_all(steps.take(k)).supply > 0);
        }
        law_history(m, early);
        law_floor_history(m, early);
        assert(steps.take(len) =~= steps);
        assert(m.after_all(steps.take(len)).supply > 0);
        assert(steps.take(0) =~= Seq::<Step>::empty());
        assert(m.after_all(steps.take(0)).supply > 0);
        assert(early =~= steps.take(len - 1));
        assert(m.after_all(steps.take(len - 1)).supply > 0);
        match before.after(steps.last()) {
            Some(_) => {
                match steps.last() {
                    Step::Buy { lamports } => law_buy_keeps_floor(before, lamports),
                    Step::Sell { units } => law_sell_keeps_floor(before, units),
                    Step::Donate { lamports } => law_donation_keeps_floor(before, lamports),
                }
                lemma_floors_chain(m, before, n);
            },
            None => {},
        }
    }
}

/// Where nobody holds the token, the vault holds nothing: so it is from launch
/// on, as long as nobody donates to an empty market.
pub proof fn law_no_supply_no_backing(m: Market, steps: Seq<Step>)
    requires
        m.valid(),
        m.supply == 0 ==> m.vault == 0,
        forall|k: int|
            0 <= k < steps.len() && #[trigger] steps[k] is Donate ==> m.after_all(
                steps.take(k),
            ).supply > 0,
    ensures
        m.after_all(steps).supply == 0 ==> m.after_all(steps).vault == 0,
    decreases steps.len(),
{
    if steps.len() > 0 {
        let early = steps.drop_last();
        let before = m.after_all(early);
        let last = steps.len() - 1;
        assert forall|k: int| 0 <= k < early.len() && #[trigger] early[k] is Donate implies m.after_all(
            early.take(k),
        ).supply > 0 by {
            assert(steps[k] is Donate);
            assert(early.take(k) =~= steps.take(k));
        }
        law_no_supply_no_backing(m, early);
        law_history(m, early);
        assert(steps.take(last) =~= early);
        match steps.last() {
            Step::Sell { units } => {
                if units != 0 && units == before.supply {
                    law_full_exit_empties_vault(before, units);
                }
            },
            Step::Donate { lamports } => {
                assert(steps[last] is Donate);
            },
            Step::Buy { lamports } => {},
        }
    }
}

/// What units stand for never shrinks while the floor does not fall.
proof fn lemma_gross_follows_floor(m: Market, n: Market, units: nat)
    requires
        m.floor_at_most(n),
        0 < m.supply,
        0 < n.supply,
    ensures
        sell_gross(m.vault, m.supply, units) <= sell_gross(n.vault, n.supply, units),
{
    let (v, s, w, t) = (m.vault, m.supply, n.vault, n.supply);
    let g = sell_gross(v, s, units);
    lemma_quotient(units * v, s);
    assert(g * t * s <= units * w * s) by {
        assert(g * s * t <= units * v * t) by (nonlinear_arith)
            requires
                g * s <= units * v,
        ;
        assert(units * v * t <= units * w * s) by (nonlinear_arith)
            requires
                v * t <= w * s,
        ;
        assert(g * t * s == g * s * t) by (nonlinear_arith);
    }
    assert(g * t <= units * w) by (nonlinear_arith)
        requires
            g * t * s <= units * w * s,
            s > 0,
    ;
    lemma_at_most_quotient(g, units * w, t);
}

/// What is left of an amount after two shares shrinks by at most one while the
/// amount grows.
proof fn lemma_payout_follows_gross(g: nat, h: nat, a: u16, b: u16)
    requires
        g <= h,
        a + b <= 10_000,
    ensures
        g - share(g, a) - share(g, b) <= h - share(h, a) - share(h, b) + 1,
{
    let (x, y) = (a as nat, b as nat);
    assert(h * x - g * x + h * y - g * y <= 10_000 * (h - g)) by (nonlinear_arith)
        requires
            g <= h,
            x + y <= 10_000,
    ;
}

/// What a holder can sell for is a ratchet: through any sequence of steps that
/// leaves the holder's units in circulation, what they stand for never shrinks,
/// and the payout shrinks by at most the lamport that rounding takes.
///
/// The payout is compared for a holder beside others: the last units to leave
/// are paid without the floor share.
pub proof fn law_exit_value_is_a_ratchet(m: Market, steps: Seq<Step>, units: nat)
    requires
        m.valid(),
        0 < units,
        forall|k: int| 0 <= k <= steps.len() ==> (#[trigger] m.after_all(steps.take(k))).supply
            >= units,
    ensures
        ({
            let n = m.after_all(steps);
            &&& sell_gross(m.vault, m.supply, units) <= sell_gross(n.vault, n.supply, units)
            &&& units < m.supply ==> sell_payout(m.curve, m.vault, m.supply, units) <= sell_payout(
                n.curve,
                n.vault,
                n.supply,
                units,
            ) + 1
        }),
{
    let n = m.after_all(steps);
    law_history(m, steps);
    law_floor_history(m, steps);
    assert(steps.take(steps.len() as int) =~= steps);
    assert(m.after_all(steps.take(steps.len() as int)).supply >= units);
    assert(steps.take(0) =~= Seq::<Step>::empty());
    assert(m.after_all(steps.take(0)).supply >= units);
    lemma_gross_follows_floor(m, n, units);
    lemma_payout_follows_gross(
        sell_gross(m.vault, m.supply, units),
        sell_gross(n.vault, n.supply, units),
        m.curve.sell_fee_creator_bps,
        m.curve.sell_fee_floor_bps,
    );
}

/// The units of some holders.
pub open spec fn total(holdings: Seq<nat>) -> nat
    decreases holdings.len(),
{
    if holdings.len() == 0 {
        0
    } else {
        total(holdings.drop_last()) + holdings.last()
    }
}

/// What the units of some holders stand for.
pub open spec fn total_gross(vault: nat, supply: nat, holdings: Seq<nat>) -> nat
    decreases holdings.len(),
{
    if holdings.len() == 0 {
        0
    } else {
        total_gross(vault, supply, holdings.drop_last()) + sell_gross(
            vault,
            supply,
            holdings.last(),
        )
    }
}

/// Rounding favours the vault over all holders together.
proof fn lemma_total_gross(vault: nat, supply: nat, holdings: Seq<nat>)
    requires
        supply > 0,
    ensures
        total_gross(vault, supply, holdings) * supply <= total(holdings) * vault,
    decreases holdings.len(),
{
    if holdings.len() == 0 {
        assert(total_gross(vault, supply, holdings) * supply == 0 && total(holdings) * vault == 0)
            by (nonlinear_arith)
            requires
                total_gross(vault, supply, holdings) == 0,
                total(holdings) == 0,
        ;
    } else {
        let early = holdings.drop_last();
        lemma_total_gross(vault, supply, early);
        let (a, b) = (total_gross(vault, supply, early), total(early));
        let (g, h) = (sell_gross(vault, supply, holdings.last()), holdings.last());
        lemma_quotient(h * vault, supply);
        assert((a + g) * supply <= (b + h) * vault) by (nonlinear_arith)
            requires
                a * supply <= b * vault,
                g * supply <= h * vault,
        ;
    }
}

/// The vault covers all holders at the floor.
pub proof fn law_vault_covers_all_holders(m: Market, holdings: Seq<nat>)
    requires
        0 < m.supply,
        total(holdings) <= m.supply,
    ensures
        total_gross(m.vault, m.supply, holdings) <= m.vault,
{
    lemma_total_gross(m.vault, m.supply, holdings);
    let (v, s) = (m.vault, m.supply);
    let (g, u) = (total_gross(v, s, holdings), total(holdings));
    assert(g <= v) by (nonlinear_arith)
        requires
            g * s <= u * v,
            u <= s,
            s > 0,
    ;
}

/// Floors are ordered.
proof fn lemma_floors_chain(a: Market, b: Market, c: Market)
    requires
        b.supply > 0,
        a.floor_at_most(b),
        b.floor_at_most(c),
    ensures
        a.floor_at_most(c),
{
    if a.supply > 0 && c.supply > 0 {
        let (v, s, w, t, x, u) = (a.vault, a.supply, b.vault, b.supply, c.vault, c.supply);
        assert(v * u * t <= w * u * s) by (nonlinear_arith)
            requires
                v * t <= w * s,
        ;
        assert(w * u * s <= x * t * s) by (nonlinear_arith)
            requires
                w * u <= x * t,
        ;
        assert(x * t * s == x * s * t) by (nonlinear_arith);
        assert(v * u <= x * s) by (nonlinear_arith)
            requires
                v * u * t <= x * s * t,
                t > 0,
        ;
    }
}

} // verus!
