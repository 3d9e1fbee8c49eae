//! What a trade costs and pays.

use crate::accuracy::lemma_factor_at_least_one;
use crate::error::{
    err, ProgramError, E_BUY_TOO_LARGE, E_CURVE_SATURATED, E_OVERFLOW, E_SLIPPAGE,
};
use crate::q48::{
    exp2_unbounded, exponent_fixed, lemma_exp2_digits_of_zero, log2_fixed, pow_ratio_fixed,
    pow_ratio_q, POW_ONE,
};
use crate::state::{Curve, E18, MAX_PRICE_FP};
use vstd::arithmetic::power2::{lemma2_to64, pow2};
use vstd::prelude::*;

verus! {

// ---------------------------------------------------------------------------
// The model
// ---------------------------------------------------------------------------

/// The share `bps / 10000` of `amount`, rounded down.
pub open spec fn share(amount: nat, bps: u16) -> nat {
    amount * (bps as nat) / 10_000
}

/// The floor: lamports per whole token that back the supply, scaled like a
/// price and rounded down.
pub open spec fn floor_price(vault: nat, supply: nat) -> nat {
    vault * (E18 as nat) / supply
}

/// The price of which the floor is the share `bps / 10000`, rounded down.
pub open spec fn governor_price(vault: nat, supply: nat, bps: u16) -> nat {
    floor_price(vault, supply) * 10_000 / (bps as nat)
}

/// The units that `net` lamports mint, with `v0` lamports in the vault and
/// `supply` units before.
///
/// The first units are minted at the quoted price. Later ones let the supply
/// grow by the power law `((v0 + net) / v0)^(bps / 10000)`.
pub open spec fn minted(price_fp: nat, bps: u16, v0: nat, net: nat, supply: nat) -> Result<
    nat,
    ProgramError,
> {
    if supply == 0 {
        Ok(net * (E18 as nat) / price_fp)
    } else {
        match pow_ratio_fixed(v0 + net, v0, bps) {
            None => Err(ProgramError::Custom(E_BUY_TOO_LARGE)),
            Some(f) => if supply * f > u128::MAX {
                Err(ProgramError::Custom(E_BUY_TOO_LARGE))
            } else {
                Ok((supply * f / (POW_ONE as nat) - supply) as nat)
            },
        }
    }
}

/// What a buy yields: the units it mints and the price it leaves, given what it
/// adds to the vault as a donation and against new units.
pub open spec fn buy_result(
    curve: Curve,
    vault: nat,
    supply: nat,
    donation: nat,
    net: nat,
    min_out: nat,
) -> Result<(nat, nat), ProgramError> {
    match minted(curve.price_fp as nat, curve.min_backing_bps, vault + donation, net, supply) {
        Err(e) => Err(e),
        Ok(out) => {
            let governed = governor_price(
                vault + donation + net,
                supply + out,
                curve.min_backing_bps,
            );
            let price = if governed > curve.price_fp {
                governed
            } else {
                curve.price_fp as nat
            };
            if out > u64::MAX {
                Err(ProgramError::Custom(E_OVERFLOW))
            } else if out == 0 || out < min_out {
                Err(ProgramError::Custom(E_SLIPPAGE))
            } else if price > MAX_PRICE_FP {
                Err(ProgramError::Custom(E_CURVE_SATURATED))
            } else {
                Ok((out, price))
            }
        },
    }
}

/// The curve after a buy that left `price` and added `net` lamports against
/// new units: nothing else changes.
pub open spec fn curve_after_buy(curve: Curve, price: nat, net: nat) -> Curve {
    Curve {
        price_fp: price as u128,
        cum_vol: if curve.cum_vol + net > u128::MAX {
            u128::MAX
        } else {
            (curve.cum_vol + net) as u128
        },
        ..curve
    }
}

/// The lamports that `units` stand for.
pub open spec fn sell_gross(vault: nat, supply: nat, units: nat) -> nat {
    units * vault / supply
}

/// The lamports of a sell that stay in the vault: the floor share, but nothing
/// where the last units leave.
pub open spec fn sell_kept(curve: Curve, vault: nat, supply: nat, units: nat) -> nat {
    if units == supply {
        0
    } else {
        share(sell_gross(vault, supply, units), curve.sell_fee_floor_bps)
    }
}

/// The lamports of a sell that go to the creator.
pub open spec fn sell_fee(curve: Curve, vault: nat, supply: nat, units: nat) -> nat {
    share(sell_gross(vault, supply, units), curve.sell_fee_creator_bps)
}

/// The lamports of a sell that go to the seller.
pub open spec fn sell_payout(curve: Curve, vault: nat, supply: nat, units: nat) -> int {
    sell_gross(vault, supply, units) - sell_fee(curve, vault, supply, units) - sell_kept(
        curve,
        vault,
        supply,
        units,
    )
}

// ---------------------------------------------------------------------------
// Arithmetic
// ---------------------------------------------------------------------------

/// A rounded quotient times its divisor is at most the dividend, and the next
/// one is past it.
pub proof fn lemma_quotient(a: nat, d: nat)
    requires
        d > 0,
    ensures
        (a / d) * d <= a,
        a < (a / d + 1) * d,
{
    let q = a / d;
    assert(q * d <= a && a < (q + 1) * d) by (nonlinear_arith)
        requires
            d > 0,
            q == a / d,
    ;
}

/// A quotient is at least what, times the divisor, is at most the dividend.
pub proof fn lemma_at_most_quotient(p: nat, a: nat, d: nat)
    requires
        d > 0,
        p * d <= a,
    ensures
        p <= a / d,
{
    lemma_quotient(a, d);
    let q = a / d;
    if p > q {
        assert((q + 1) * d <= p * d) by (nonlinear_arith)
            requires
                q + 1 <= p,
        ;
    }
}

/// A larger vault per unit shows in the rounded floor.
pub proof fn lemma_floor_price_le(v: nat, s: nat, w: nat, t: nat)
    requires
        0 < s,
        0 < t,
        v * t <= w * s,
    ensures
        floor_price(v, s) <= floor_price(w, t),
{
    let e = E18 as nat;
    let (p, q) = (floor_price(v, s), floor_price(w, t));
    let (a, b) = (v * e, w * e);
    assert(p * s <= a) by (nonlinear_arith)
        requires
            s > 0,
            p == a / s,
    ;
    assert(b < (q + 1) * t) by (nonlinear_arith)
        requires
            t > 0,
            q == b / t,
    ;
    if p > q {
        assert((q + 1) * t * s <= p * t * s) by (nonlinear_arith)
            requires
                q + 1 <= p,
        ;
        assert(p * t * s == p * s * t) by (nonlinear_arith);
        assert(p * s * t <= a * t) by (nonlinear_arith)
            requires
                p * s <= a,
        ;
        assert(b * s < (q + 1) * t * s) by (nonlinear_arith)
            requires
                b < (q + 1) * t,
                s > 0,
        ;
        assert(a * t == v * t * e) by (nonlinear_arith)
            requires
                a == v * e,
        ;
        assert(b * s == w * s * e) by (nonlinear_arith)
            requires
                b == w * e,
        ;
        assert(v * t * e <= w * s * e) by (nonlinear_arith)
            requires
                v * t <= w * s,
        ;
    }
}

/// Shares of at most everything together are at most the amount.
pub proof fn lemma_two_shares(amount: nat, a: u16, b: u16)
    requires
        a + b <= 10_000,
    ensures
        share(amount, a) + share(amount, b) <= amount,
        share(amount, a) <= amount,
        share(amount, b) <= amount,
{
    assert(amount * (a as nat) + amount * (b as nat) <= 10_000 * amount) by (nonlinear_arith)
        requires
            a + b <= 10_000,
    ;
    assert(amount * (a as nat) >= 0 && amount * (b as nat) >= 0) by (nonlinear_arith);
}

/// Part of a supply stands for at most the whole vault, the whole supply for
/// all of it, and rounding never favours the part.
pub proof fn lemma_gross(vault: nat, supply: nat, units: nat)
    requires
        0 < supply,
        units <= supply,
    ensures
        sell_gross(vault, supply, units) <= vault,
        units == supply ==> sell_gross(vault, supply, units) == vault,
        sell_gross(vault, supply, units) * supply <= units * vault,
        units * vault < (sell_gross(vault, supply, units) + 1) * supply,
{
    let g = sell_gross(vault, supply, units);
    let p = units * vault;
    assert(g * supply <= p && p < (g + 1) * supply) by (nonlinear_arith)
        requires
            0 < supply,
            g == p / supply,
    ;
    assert(p <= supply * vault) by (nonlinear_arith)
        requires
            p == units * vault,
            units <= supply,
    ;
    if g > vault {
        assert(g * supply > vault * supply) by (nonlinear_arith)
            requires
                g > vault,
                supply > 0,
        ;
        assert(vault * supply == supply * vault) by (nonlinear_arith);
    }
    if units == supply && g < vault {
        assert((g + 1) * supply <= vault * supply) by (nonlinear_arith)
            requires
                g + 1 <= vault,
        ;
        assert(vault * supply == supply * vault) by (nonlinear_arith);
    }
}

/// A supply scaled by a factor of at least one does not shrink.
pub proof fn lemma_scaled_supply(supply: nat, f: nat)
    requires
        POW_ONE <= f,
    ensures
        supply * f / (POW_ONE as nat) >= supply,
        (supply * f / (POW_ONE as nat)) * POW_ONE <= supply * f,
        supply * f < (supply * f / (POW_ONE as nat) + 1) * POW_ONE,
{
    assert(supply * f >= supply * POW_ONE) by (nonlinear_arith)
        requires
            POW_ONE <= f,
    ;
}

/// A backing of nothing lets nothing grow.
proof fn lemma_no_backing_no_growth(v0: nat, net: nat, supply: nat)
    requires
        supply > 0,
    ensures
        forall|price: nat| #[trigger] minted(price, 0, v0, net, supply) matches Ok(out) ==> out == 0,
{
    let ratio = ((v0 + net) * POW_ONE / (v0 as int)) as nat;
    assert(log2_fixed(ratio) * exponent_fixed(0) == 0) by (nonlinear_arith)
        requires
            exponent_fixed(0) == 0,
    ;
    lemma_exp2_digits_of_zero(48);
    lemma2_to64();
    let one = POW_ONE as nat;
    assert(one * pow2(0) == one) by (nonlinear_arith)
        requires
            pow2(0) == 1,
    ;
    assert(exp2_unbounded(0) == POW_ONE);
    assert(supply * one / one == supply) by (nonlinear_arith)
        requires
            one > 0,
    ;
}

// ---------------------------------------------------------------------------
// Quotes
// ---------------------------------------------------------------------------

/// How the lamports of a buy are divided.
#[derive(Clone, Copy, Debug)]
pub struct BuySplit {
    /// To the creator.
    pub creator_fee: u64,
    /// To the vault, against nothing.
    pub donation: u64,
    /// To the vault, against new units.
    pub net: u64,
}

/// The share `bps / 10000` of `amount`.
fn share_of(amount: u64, bps: u16) -> (r: u64)
    requires
        bps <= 10_000,
    ensures
        r == share(amount as nat, bps),
        r <= amount,
{
    proof {
        lemma_two_shares(amount as nat, bps, 0);
        assert(amount * bps <= 0xffff_ffff_ffff_ffff * 0xffff) by (nonlinear_arith)
            requires
                0 <= amount <= 0xffff_ffff_ffff_ffff,
                0 <= bps <= 0xffff,
        ;
        assert(amount * bps == (amount as nat) * (bps as nat));
    }
    (amount as u128 * bps as u128 / 10_000) as u64
}

/// Divides the lamports of a buy.
pub fn split_buy(curve: &Curve, lamports: u64) -> (r: BuySplit)
    requires
        curve.fees_fit(true),
    ensures
        r.creator_fee == share(lamports as nat, curve.buy_fee_creator_bps),
        r.donation == share(lamports as nat, curve.buy_fee_floor_bps),
        r.creator_fee + r.donation + r.net == lamports,
{
    proof {
        lemma_two_shares(lamports as nat, curve.buy_fee_creator_bps, curve.buy_fee_floor_bps);
    }
    let creator_fee: u64 = share_of(lamports, curve.buy_fee_creator_bps);
    let donation: u64 = share_of(lamports, curve.buy_fee_floor_bps);
    BuySplit { creator_fee, donation, net: lamports - creator_fee - donation }
}

/// The units that `net` lamports mint.
fn quote_mint(price_fp: u128, bps: u16, v0: u128, net: u64, supply: u64) -> (r: Result<
    u128,
    ProgramError,
>)
    requires
        supply == 0 ==> price_fp > 0,
        v0 <= 2 * u64::MAX,
    ensures
        match r {
            Ok(out) => minted(price_fp as nat, bps, v0 as nat, net as nat, supply as nat) == Ok::<
                nat,
                ProgramError,
            >(out as nat),
            Err(e) => minted(price_fp as nat, bps, v0 as nat, net as nat, supply as nat) == Err::<
                nat,
                ProgramError,
            >(e),
        },
        supply == 0 ==> r is Ok,
{
    if supply == 0 {
        Ok(net as u128 * E18 / price_fp)
    } else {
        let factor: u128 = match pow_ratio_q(v0 + net as u128, v0, bps) {
            Some(f) => f,
            None => {
                return Err(err(E_BUY_TOO_LARGE));
            },
        };
        match (supply as u128).checked_mul(factor) {
            Some(grown) => {
                proof {
                    lemma_factor_at_least_one((v0 + net) as nat, v0 as nat, bps);
                    lemma_scaled_supply(supply as nat, factor as nat);
                    assert(grown == (supply as nat) * (factor as nat));
                }
                Ok(grown / POW_ONE - supply as u128)
            },
            None => {
                proof {
                    assert((supply as nat) * (factor as nat) > u128::MAX);
                }
                Err(err(E_BUY_TOO_LARGE))
            },
        }
    }
}

/// The price of which the floor is the share `bps / 10000`; past the cap, some
/// price past it.
fn quote_price(vault: u128, supply: u128, bps: u16) -> (r: u128)
    requires
        vault <= 3 * u64::MAX,
        supply > 0,
        bps > 0,
    ensures
        governor_price(vault as nat, supply as nat, bps) <= MAX_PRICE_FP || r <= MAX_PRICE_FP ==> r
            == governor_price(vault as nat, supply as nat, bps),
{
    let nav: u128 = vault * E18 / supply;
    match nav.checked_mul(10_000) {
        Some(scaled) => scaled / bps as u128,
        None => {
            proof {
                let top = nav as nat * 10_000;
                assert(top / (bps as nat) > MAX_PRICE_FP) by (nonlinear_arith)
                    requires
                        top > 0xffff_ffff_ffff_ffff_ffff_ffff_ffff_ffff,
                        0 < bps <= 0xffff,
                        MAX_PRICE_FP == 1_000_000_000_000_000_000_000_000_000_000,
                ;
            }
            u128::MAX
        },
    }
}

/// What a buy yields: the units it mints and the price it leaves.
pub fn quote_buy(
    curve: &Curve,
    vault: u64,
    supply: u64,
    donation: u64,
    net: u64,
    min_out: u64,
) -> (r: Result<(u64, u128), ProgramError>)
    requires
        supply == 0 ==> curve.price_fp > 0 && curve.min_backing_bps > 0,
    ensures
        match r {
            Ok((out, price)) => buy_result(
                *curve,
                vault as nat,
                supply as nat,
                donation as nat,
                net as nat,
                min_out as nat,
            ) == Ok::<(nat, nat), ProgramError>((out as nat, price as nat)),
            Err(e) => buy_result(
                *curve,
                vault as nat,
                supply as nat,
                donation as nat,
                net as nat,
                min_out as nat,
            ) == Err::<(nat, nat), ProgramError>(e),
        },
{
    let v0: u128 = vault as u128 + donation as u128;
    let vf: u128 = v0 + net as u128;
    let out: u128 = match quote_mint(curve.price_fp, curve.min_backing_bps, v0, net, supply) {
        Ok(out) => out,
        Err(e) => {
            return Err(e);
        },
    };
    if out > u64::MAX as u128 {
        return Err(err(E_OVERFLOW));
    }
    let out64: u64 = out as u64;
    if out64 == 0 || out64 < min_out {
        return Err(err(E_SLIPPAGE));
    }
    proof {
        if curve.min_backing_bps == 0 {
            lemma_no_backing_no_growth(v0 as nat, net as nat, supply as nat);
        }
    }
    let governed: u128 = quote_price(vf, supply as u128 + out, curve.min_backing_bps);
    let price: u128 = if governed > curve.price_fp {
        governed
    } else {
        curve.price_fp
    };
    if price > MAX_PRICE_FP {
        return Err(err(E_CURVE_SATURATED));
    }
    Ok((out64, price))
}

/// How the lamports of a sell are divided.
#[derive(Clone, Copy, Debug)]
pub struct SellSplit {
    /// To the seller.
    pub to_seller: u64,
    /// To the creator.
    pub creator_fee: u64,
    /// Kept by the vault.
    pub floor_keep: u64,
}

/// What a sell of `units` out of `supply` pays.
pub fn quote_sell(curve: &Curve, vault: u64, supply: u64, units: u64, min_out: u64) -> (r: Result<
    SellSplit,
    ProgramError,
>)
    requires
        0 < supply,
        units <= supply,
        curve.fees_fit(false),
    ensures
        match r {
            Ok(s) => {
                &&& s.to_seller == sell_payout(*curve, vault as nat, supply as nat, units as nat)
                &&& s.creator_fee == sell_fee(*curve, vault as nat, supply as nat, units as nat)
                &&& s.floor_keep == sell_kept(*curve, vault as nat, supply as nat, units as nat)
                &&& s.to_seller + s.creator_fee + s.floor_keep == sell_gross(
                    vault as nat,
                    supply as nat,
                    units as nat,
                )
                &&& s.to_seller + s.creator_fee <= vault
                &&& s.to_seller >= min_out
            },
            Err(e) => {
                &&& e == ProgramError::Custom(E_SLIPPAGE)
                &&& sell_payout(*curve, vault as nat, supply as nat, units as nat) < min_out
            },
        },
{
    proof {
        lemma_gross(vault as nat, supply as nat, units as nat);
        lemma_two_shares(
            sell_gross(vault as nat, supply as nat, units as nat),
            curve.sell_fee_creator_bps,
            curve.sell_fee_floor_bps,
        );
        assert(units * vault <= 0xffff_ffff_ffff_ffff * 0xffff_ffff_ffff_ffff)
            by (nonlinear_arith)
            requires
                0 <= units <= 0xffff_ffff_ffff_ffff,
                0 <= vault <= 0xffff_ffff_ffff_ffff,
        ;
        assert(units * vault == (units as nat) * (vault as nat));
    }
    let gross: u64 = (units as u128 * vault as u128 / supply as u128) as u64;
    let creator_fee: u64 = share_of(gross, curve.sell_fee_creator_bps);
    let floor_keep: u64 = if units == supply {
        0
    } else {
        share_of(gross, curve.sell_fee_floor_bps)
    };
    let to_seller: u64 = gross - creator_fee - floor_keep;
    if to_seller < min_out {
        return Err(err(E_SLIPPAGE));
    }
    Ok(SellSplit { to_seller, creator_fee, floor_keep })
}

/// The vault's backing: what the curve account holds above its rent.
pub fn backing(lamports: u64, rent: Result<u64, ProgramError>) -> (r: Result<u64, ProgramError>)
    ensures
        match rent {
            Ok(floor) => r == Ok::<u64, ProgramError>(
                if lamports > floor {
                    (lamports - floor) as u64
                } else {
                    0
                },
            ),
            Err(e) => r == Err::<u64, ProgramError>(e),
        },
{
    match rent {
        Ok(floor) => Ok(lamports.saturating_sub(floor)),
        Err(e) => Err(e),
    }
}

} // verus!
