//! The chunked price schedule of the reference launch, and what a suite of
//! trades against it expects.

use crate::market::{floor_price, sell_fee, sell_payout, share};
use crate::state::{Curve, LaunchCfg, E18, FP};
use vstd::prelude::*;

verus! {

/// The natural logarithm of two, scaled by `FP`.
pub const LN2_FP: u128 = 693_147_181;

/// A doubling volume is walked in this many chunks.
pub const CHUNK_DIV: u128 = 32;

/// Lamports per SOL.
pub const SOL: u64 = 1_000_000_000;

/// The reference launch: one SOL per token, a doubling per 25 SOL, buys of 1%
/// to the creator and 2% to the floor, sells of 1% and 5%, and a backing of
/// 93.5%.
pub open spec fn reference() -> LaunchCfg {
    LaunchCfg {
        start_price_fp: 1_000_000_000_000_000_000,
        double_vol: 25_000_000_000,
        buy_fee_creator_bps: 100,
        buy_fee_floor_bps: 200,
        sell_fee_creator_bps: 100,
        sell_fee_floor_bps: 500,
        min_backing_bps: 9_350,
    }
}

/// The reference launch.
pub fn reference_cfg() -> (r: LaunchCfg)
    ensures
        r == reference(),
        r.allowed(),
{
    LaunchCfg {
        start_price_fp: 1_000_000_000 * FP,
        double_vol: 25 * SOL,
        buy_fee_creator_bps: 100,
        buy_fee_floor_bps: 200,
        sell_fee_creator_bps: 100,
        sell_fee_floor_bps: 500,
        min_backing_bps: 9_350,
    }
}

/// A buy on its way through the schedule.
pub struct Run {
    /// Lamports still to be spent.
    pub remaining: nat,
    /// Lamports in the vault.
    pub vault: nat,
    pub price: nat,
    /// Units minted so far.
    pub out: nat,
}

/// The lamports of a full chunk: 781250000.
pub open spec fn chunk_size() -> nat {
    reference().double_vol as nat / (CHUNK_DIV as nat)
}

/// The highest price that the governor allows at a floor of `nav`. One that
/// does not fit is no limit.
pub open spec fn price_cap(nav: nat) -> nat {
    if nav * 10_000 > u128::MAX {
        u128::MAX as nat
    } else {
        nav * 10_000 / (reference().min_backing_bps as nat)
    }
}

impl Run {
    /// The lamports of the next chunk.
    pub open spec fn chunk(self) -> nat {
        if self.remaining < chunk_size() {
            self.remaining
        } else {
            chunk_size()
        }
    }

    /// What the schedule adds to the price over the next chunk, scaled by `FP`.
    pub open spec fn rise(self) -> nat {
        self.price * (LN2_FP as nat * self.chunk() / (reference().double_vol as nat))
    }

    /// The price that the schedule asks for after the next chunk.
    pub open spec fn raised(self) -> nat {
        self.price + self.rise() / (FP as nat)
    }

    /// The floor before the next chunk.
    pub open spec fn nav(self, supply: nat) -> nat {
        floor_price(self.vault, supply + self.out)
    }

    /// The price after the next chunk: what the schedule asks for, as far as
    /// the governor allows it, and never less than before.
    pub open spec fn next_price(self, supply: nat) -> nat {
        let cap = price_cap(self.nav(supply));
        if supply + self.out == 0 {
            self.raised()
        } else if self.raised() <= cap {
            self.raised()
        } else if cap < self.price {
            self.price
        } else {
            cap
        }
    }

    /// The price at which the next chunk mints: the middle of its prices, and
    /// more than the floor.
    pub open spec fn mint_price(self, supply: nat) -> nat {
        let middle = (self.price + self.next_price(supply)) / 2;
        let nav = self.nav(supply);
        if supply + self.out > 0 && middle <= nav {
            nav + nav / 10_000 + 1
        } else {
            middle
        }
    }

    /// The numbers of the next chunk fit, and it has a price.
    pub open spec fn step_fits(self, supply: nat) -> bool {
        &&& self.rise() <= u128::MAX
        &&& self.raised() <= u128::MAX
        &&& supply + self.out <= u128::MAX
        &&& supply + self.out > 0 ==> self.vault * E18 <= u128::MAX
        &&& self.price + self.next_price(supply) <= u128::MAX
        &&& 0 < self.mint_price(supply) <= u128::MAX
        &&& self.out + self.chunk() * E18 / self.mint_price(supply) as int <= u128::MAX
        &&& self.vault + self.chunk() <= u128::MAX
    }

    /// The buy after the next chunk.
    pub open spec fn step(self, supply: nat) -> Run {
        Run {
            remaining: (self.remaining - self.chunk()) as nat,
            vault: self.vault + self.chunk(),
            price: self.next_price(supply),
            out: self.out + self.chunk() * (E18 as nat) / self.mint_price(supply),
        }
    }

    /// The numbers of all chunks fit.
    pub open spec fn fits(self, supply: nat) -> bool
        decreases self.remaining,
    {
        self.remaining == 0 || (self.step_fits(supply) && self.step(supply).fits(supply))
    }

    /// The buy after all chunks.
    pub open spec fn end(self, supply: nat) -> Run
        decreases self.remaining,
    {
        if self.remaining == 0 {
            self
        } else {
            self.step(supply).end(supply)
        }
    }
}

/// A buy of `lamports` at its start: the fees are taken and the donation is in
/// the vault.
pub open spec fn run_start(price_fp: u128, lamports: u64, v_pre: u128) -> Run {
    let fee = share(lamports as nat, reference().buy_fee_creator_bps);
    let donation = share(lamports as nat, reference().buy_fee_floor_bps);
    Run {
        remaining: (lamports - fee - donation) as nat,
        vault: v_pre as nat + donation,
        price: price_fp as nat,
        out: 0,
    }
}

/// The numbers of a buy fit.
pub open spec fn expected_buy_fits(price_fp: u128, lamports: u64, v_pre: u128, s0: u128) -> bool {
    let start = run_start(price_fp, lamports, v_pre);
    start.vault <= u128::MAX && start.fits(s0 as nat)
}

/// One chunk of a buy; `None` where a number does not fit.
fn try_step(remaining: u128, vault: u128, price: u128, out: u128, s0: u128) -> (r: Option<
    (u128, u128, u128, u128),
>)
    requires
        0 < remaining <= u64::MAX,
    ensures
        ({
            let run = Run {
                remaining: remaining as nat,
                vault: vault as nat,
                price: price as nat,
                out: out as nat,
            };
            match r {
                Some((a, b, c, d)) => {
                    &&& run.step_fits(s0 as nat)
                    &&& run.step(s0 as nat) == (Run {
                        remaining: a as nat,
                        vault: b as nat,
                        price: c as nat,
                        out: d as nat,
                    })
                    &&& a < remaining
                },
                None => !run.step_fits(s0 as nat),
            }
        }),
{
    let ghost run = Run {
        remaining: remaining as nat,
        vault: vault as nat,
        price: price as nat,
        out: out as nat,
    };
    let cfg = reference_cfg();
    let d: u128 = cfg.double_vol as u128;
    let chunk: u128 = d / CHUNK_DIV;
    let c: u128 = if remaining < chunk {
        remaining
    } else {
        chunk
    };
    assert(c == run.chunk());
    let rise: u128 = match price.checked_mul(LN2_FP * c / d) {
        Some(x) => x,
        None => {
            return None;
        },
    };
    assert(rise == run.rise());
    let raised: u128 = match price.checked_add(rise / FP) {
        Some(x) => x,
        None => {
            return None;
        },
    };
    let supply: u128 = match s0.checked_add(out) {
        Some(x) => x,
        None => {
            return None;
        },
    };
    let (next, minting): (u128, u128) = if supply > 0 {
        let nav: u128 = match vault.checked_mul(E18) {
            Some(x) => x / supply,
            None => {
                return None;
            },
        };
        assert(nav == run.nav(s0 as nat));
        let cap: u128 = match nav.checked_mul(10_000) {
            Some(x) => x / cfg.min_backing_bps as u128,
            None => u128::MAX,
        };
        let mut p: u128 = raised;
        if p > cap {
            p = cap;
        }
        if p < price {
            p = price;
        }
        assert(p == run.next_price(s0 as nat));
        let middle: u128 = match price.checked_add(p) {
            Some(x) => x / 2,
            None => {
                return None;
            },
        };
        if middle <= nav {
            match nav.checked_add(nav / 10_000 + 1) {
                Some(x) => (p, x),
                None => {
                    return None;
                },
            }
        } else {
            (p, middle)
        }
    } else {
        match price.checked_add(raised) {
            Some(x) => (raised, x / 2),
            None => {
                return None;
            },
        }
    };
    assert(minting == run.mint_price(s0 as nat));
    if minting == 0 {
        return None;
    }
    assert(c * E18 == (c as nat) * (E18 as nat));
    let out2: u128 = match out.checked_add(c * E18 / minting) {
        Some(x) => x,
        None => {
            return None;
        },
    };
    let vault2: u128 = match vault.checked_add(c) {
        Some(x) => x,
        None => {
            return None;
        },
    };
    Some((remaining - c, vault2, next, out2))
}

/// The price and the units that the schedule gives a buy of `lamports`, with
/// `v_pre` lamports in the vault and `s0` units before; `None` where a number
/// does not fit.
pub fn try_expected_buy(price_fp: u128, lamports: u64, v_pre: u128, s0: u128) -> (r: Option<
    (u128, u128),
>)
    ensures
        r is Some <==> expected_buy_fits(price_fp, lamports, v_pre, s0),
        r matches Some((p, out)) ==> ({
            let end = run_start(price_fp, lamports, v_pre).end(s0 as nat);
            p == end.price && out == end.out
        }),
{
    let cfg = reference_cfg();
    let ghost start = run_start(price_fp, lamports, v_pre);
    proof {
        assert(lamports as nat * 100 == lamports * 100);
        assert(lamports as nat * 200 == lamports * 200);
    }
    let creator_fee: u128 = lamports as u128 * cfg.buy_fee_creator_bps as u128 / 10_000;
    let donation: u128 = lamports as u128 * cfg.buy_fee_floor_bps as u128 / 10_000;
    let mut remaining: u128 = lamports as u128 - creator_fee - donation;
    let mut vault: u128 = match v_pre.checked_add(donation) {
        Some(x) => x,
        None => {
            return None;
        },
    };
    let mut price: u128 = price_fp;
    let mut out: u128 = 0;
    while remaining > 0
        invariant
            start == run_start(price_fp, lamports, v_pre),
            start.vault <= u128::MAX,
            remaining <= u64::MAX,
            ({
                let run = Run {
                    remaining: remaining as nat,
                    vault: vault as nat,
                    price: price as nat,
                    out: out as nat,
                };
                &&& run.fits(s0 as nat) == start.fits(s0 as nat)
                &&& run.end(s0 as nat) == start.end(s0 as nat)
            }),
        decreases remaining,
    {
        match try_step(remaining, vault, price, out, s0) {
            Some((a, b, c, d)) => {
                remaining = a;
                vault = b;
                price = c;
                out = d;
            },
            None => {
                return None;
            },
        }
    }
    Some((price, out))
}

/// The price and the units that the schedule gives a buy of `lamports`, with
/// `v_pre` lamports in the vault and `s0` units before.
pub fn expected_buy(price_fp: u128, lamports: u64, v_pre: u128, s0: u128) -> (r: (u128, u128))
    requires
        expected_buy_fits(price_fp, lamports, v_pre, s0),
    ensures
        ({
            let end = run_start(price_fp, lamports, v_pre).end(s0 as nat);
            r.0 == end.price && r.1 == end.out
        }),
{
    try_expected_buy(price_fp, lamports, v_pre, s0).unwrap()
}

/// The lamports that `units` out of `supply` stand for.
pub open spec fn expected_gross(units: u64, v: u128, supply: u64) -> nat {
    units as nat * (v as nat) / (supply as nat)
}

/// The creator's part of a sell under the reference fees.
pub open spec fn expected_fee(units: u64, v: u128, supply: u64) -> nat {
    share(expected_gross(units, v, supply), reference().sell_fee_creator_bps)
}

/// The vault's part of a sell under the reference fees: nothing where the last
/// units leave.
pub open spec fn expected_kept(units: u64, v: u128, supply: u64) -> nat {
    if units == supply {
        0
    } else {
        share(expected_gross(units, v, supply), reference().sell_fee_floor_bps)
    }
}

/// The seller's part of a sell under the reference fees.
pub open spec fn expected_payout(units: u64, v: u128, supply: u64) -> int {
    expected_gross(units, v, supply) - expected_fee(units, v, supply) - expected_kept(
        units,
        v,
        supply,
    )
}

/// The curve charges the reference fees on sells.
pub open spec fn charges_reference(curve: Curve) -> bool {
    &&& curve.sell_fee_creator_bps == reference().sell_fee_creator_bps
    &&& curve.sell_fee_floor_bps == reference().sell_fee_floor_bps
}

/// The seller's part of a sell, what leaves the vault, and the creator's part,
/// under the reference fees: what a curve that charges them pays.
pub fn expected_sell(units: u64, v: u128, supply: u64) -> (r: (u64, u64, u64))
    requires
        supply > 0,
        units * v <= u128::MAX,
        expected_gross(units, v, supply) * 100 <= u128::MAX,
        units != supply ==> expected_gross(units, v, supply) * 500 <= u128::MAX,
        expected_payout(units, v, supply) as u64 + expected_fee(units, v, supply) as u64
            <= u64::MAX,
    ensures
        r.0 == expected_payout(units, v, supply) as u64,
        r.1 == r.0 + r.2,
        r.2 == expected_fee(units, v, supply) as u64,
        forall|curve: Curve|
            charges_reference(curve) ==> {
                &&& r.0 == (#[trigger] sell_payout(curve, v as nat, supply as nat, units as nat))
                    as u64
                &&& r.2 == sell_fee(curve, v as nat, supply as nat, units as nat) as u64
            },
{
    let cfg = reference_cfg();
    assert(units * v == units as nat * (v as nat));
    let gross: u128 = units as u128 * v / supply as u128;
    let creator_fee: u128 = gross * cfg.sell_fee_creator_bps as u128 / 10_000;
    let floor_keep: u128 = if units == supply {
        0
    } else {
        gross * cfg.sell_fee_floor_bps as u128 / 10_000
    };
    assert(creator_fee == expected_fee(units, v, supply));
    let to_seller: u64 = (gross - creator_fee - floor_keep) as u64;
    (to_seller, to_seller + creator_fee as u64, creator_fee as u64)
}

/// The price is covered by the floor at the reference backing, with a slack of
/// a millionth.
pub open spec fn ratio_holds(price_fp: u128, vault: u64, supply: u64) -> bool {
    let nav = floor_price(vault as nat, supply as nat);
    supply == 0 || price_fp * reference().min_backing_bps <= nav * 10_000 + nav / 100
}

/// Whether the price is covered by the floor at the reference backing.
pub fn ratio_ok(price_fp: u128, vault: u64, supply: u64) -> (r: bool)
    requires
        supply > 0 ==> price_fp * 9_350 <= u128::MAX,
        supply > 0 ==> floor_price(vault as nat, supply as nat) * 10_000 + floor_price(
            vault as nat,
            supply as nat,
        ) / 100 <= u128::MAX,
    ensures
        r == ratio_holds(price_fp, vault, supply),
{
    if supply == 0 {
        return true;
    }
    let cfg = reference_cfg();
    let nav: u128 = vault as u128 * E18 / supply as u128;
    price_fp * cfg.min_backing_bps as u128 <= nav * 10_000 + nav / 100
}

} // verus!
