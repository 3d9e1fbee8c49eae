//! What each quote comes to, told by what it has to satisfy.
//!
//! A law here speaks of any result that a function's contract allows. A rounded
//! quotient is told by the two products that it lies between.

use crate::accuracy::{
    bps_unit, lemma_factor_at_least_one, lemma_factor_lower, lemma_factor_upper, one,
};
use crate::error::{
    ProgramError, E_BUY_TOO_LARGE, E_CURVE_SATURATED, E_OVERFLOW, E_SLIPPAGE,
};
use crate::market::{
    backing, floor_price, governor_price, minted, quote_buy, quote_sell, sell_gross, share,
    split_buy, BuySplit, SellSplit,
};
use crate::powers::{lemma_pow_le, lemma_pow_nonneg};
use crate::q48::{pow_ratio_fixed, pow_ratio_q};
use crate::state::Curve;
use vstd::arithmetic::power::{lemma_pow_distributes, lemma_pow_positive, pow};
use vstd::prelude::*;

verus! {

/// `q` is `a / d`, rounded down.
pub open spec fn is_quotient(q: int, a: int, d: int) -> bool {
    q * d <= a < (q + 1) * d
}

/// `part` is the share `bps / 10000` of `amount`, rounded down.
pub open spec fn is_share(part: int, amount: int, bps: u16) -> bool {
    is_quotient(part, amount * bps, 10_000)
}

/// There is one rounded quotient.
pub proof fn lemma_one_quotient(q: int, a: int, d: int)
    requires
        d > 0,
        is_quotient(q, a, d),
    ensures
        q == a / d,
{
    let p = a / d;
    assert(p * d <= a < (p + 1) * d) by (nonlinear_arith)
        requires
            d > 0,
            p == a / d,
    ;
    assert(q == p) by (nonlinear_arith)
        requires
            d > 0,
            p * d <= a < (p + 1) * d,
            q * d <= a < (q + 1) * d,
    ;
}

/// A rounded quotient is one.
pub proof fn lemma_is_quotient(a: int, d: int)
    requires
        d > 0,
    ensures
        is_quotient(a / d, a, d),
{
    let p = a / d;
    assert(p * d <= a < (p + 1) * d) by (nonlinear_arith)
        requires
            d > 0,
            p == a / d,
    ;
}

/// A share in the model is the rounded one.
pub proof fn lemma_is_share(amount: nat, bps: u16)
    ensures
        is_share(share(amount, bps) as int, amount as int, bps),
        forall|part: int| is_share(part, amount as int, bps) ==> part == share(amount, bps),
{
    let a = amount * (bps as nat);
    assert(a == amount * bps);
    lemma_is_quotient(a as int, 10_000);
    assert forall|part: int| is_share(part, amount as int, bps) implies part == share(
        amount,
        bps,
    ) by {
        lemma_one_quotient(part, a as int, 10_000);
    }
}

// ---------------------------------------------------------------------------
// Buys
// ---------------------------------------------------------------------------

/// A buy is divided without loss: the creator's and the donated share are
/// rounded down, and the rest mints.
pub proof fn law_buys_are_divided(curve: &Curve, lamports: u64, s: BuySplit)
    requires
        call_ensures(split_buy, (curve, lamports), s),
    ensures
        is_share(s.creator_fee as int, lamports as int, curve.buy_fee_creator_bps),
        is_share(s.donation as int, lamports as int, curve.buy_fee_floor_bps),
        s.creator_fee + s.donation + s.net == lamports,
{
    lemma_is_share(lamports as nat, curve.buy_fee_creator_bps);
    lemma_is_share(lamports as nat, curve.buy_fee_floor_bps);
}

/// A buy is too large for the power law: the vault's growth, `factor`, does not
/// fit, or the grown supply does not.
pub open spec fn outgrows(supply: u64, factor: Option<u128>) -> bool {
    supply > 0 && match factor {
        None => true,
        Some(f) => supply * f > u128::MAX,
    }
}

/// `out` units are what a buy mints: the first at the price, later ones so that
/// the supply grows by the factor, and rounded down.
pub open spec fn mints(
    price_fp: u128,
    net: u64,
    supply: u64,
    factor: Option<u128>,
    out: int,
) -> bool {
    if supply == 0 {
        is_quotient(out, net * 1_000_000_000_000_000_000, price_fp as int)
    } else {
        is_quotient(supply + out, supply * factor->0, 0x1_0000_0000_0000)
    }
}

/// `price` is the price of which the floor, `vault` lamports for `supply` units,
/// is the share `bps / 10000`; both are rounded down.
pub open spec fn governs(price: int, vault: int, supply: int, bps: u16) -> bool {
    exists|nav: int|
        #[trigger] is_quotient(nav, vault * 1_000_000_000_000_000_000, supply) && is_quotient(
            price,
            nav * 10_000,
            bps as int,
        )
}

/// The governor's price in the model is the rounded one.
pub proof fn lemma_governs(price: int, vault: nat, supply: nat, bps: u16)
    requires
        supply > 0,
        bps > 0,
        governs(price, vault as int, supply as int, bps),
    ensures
        price == governor_price(vault, supply, bps),
{
    let e: int = 1_000_000_000_000_000_000;
    let nav = choose|nav: int| #[trigger]
        is_quotient(nav, vault * e, supply as int) && is_quotient(
            price,
            nav * 10_000,
            bps as int,
        );
    lemma_one_quotient(nav, vault * e, supply as int);
    lemma_one_quotient(price, nav * 10_000, bps as int);
    assert(nav == floor_price(vault, supply));
}

/// What a buy is quoted follows from the units that it mints and the price that
/// governs the market after it: the larger of that and the price before, as
/// long as enough units come out and the price is not past its cap.
///
/// The errors come in this order: the buy outgrows the pool, the units do not
/// fit, there are too few, the price is past its cap.
pub proof fn law_buys_are_quoted(
    curve: &Curve,
    vault: u64,
    supply: u64,
    donation: u64,
    net: u64,
    min_out: u64,
    factor: Option<u128>,
    out: int,
    governed: int,
    r: Result<(u64, u128), ProgramError>,
)
    requires
        call_ensures(quote_buy, (curve, vault, supply, donation, net, min_out), r),
        call_ensures(
            pow_ratio_q,
            (
                (vault + donation + net) as u128,
                (vault + donation) as u128,
                curve.min_backing_bps,
            ),
            factor,
        ),
        curve.min_backing_bps > 0,
        supply == 0 ==> curve.price_fp > 0,
        !outgrows(supply, factor) ==> mints(curve.price_fp, net, supply, factor, out),
        !outgrows(supply, factor) && supply + out > 0 ==> governs(
            governed,
            vault + donation + net,
            supply + out,
            curve.min_backing_bps,
        ),
    ensures
        ({
            let top: int = 1_000_000_000_000_000_000_000_000_000_000;
            let price = if governed > curve.price_fp {
                governed
            } else {
                curve.price_fp as int
            };
            if outgrows(supply, factor) {
                r == Err::<(u64, u128), ProgramError>(ProgramError::Custom(E_BUY_TOO_LARGE))
            } else if out > u64::MAX {
                r == Err::<(u64, u128), ProgramError>(ProgramError::Custom(E_OVERFLOW))
            } else if out == 0 || out < min_out {
                r == Err::<(u64, u128), ProgramError>(ProgramError::Custom(E_SLIPPAGE))
            } else if price > top {
                r == Err::<(u64, u128), ProgramError>(ProgramError::Custom(E_CURVE_SATURATED))
            } else {
                r is Ok && r->Ok_0.0 == out && r->Ok_0.1 == price
            }
        }),
{
    let (v0, vf) = ((vault + donation) as nat, (vault + donation + net) as nat);
    let bps = curve.min_backing_bps;
    assert(vf == v0 + net as nat);
    assert(vault as nat + donation as nat == v0);
    let m = minted(curve.price_fp as nat, bps, v0, net as nat, supply as nat);
    if !outgrows(supply, factor) {
        if supply == 0 {
            let a: int = net * 1_000_000_000_000_000_000;
            lemma_one_quotient(out, a, curve.price_fp as int);
        } else {
            let f = factor->0 as nat;
            lemma_one_quotient(supply + out, supply * f, 0x1_0000_0000_0000);
            lemma_factor_at_least_one(vf, v0, bps);
            assert(supply as nat * f == supply * f);
            assert(supply * f >= supply * 0x1_0000_0000_0000) by (nonlinear_arith)
                requires
                    f >= 0x1_0000_0000_0000,
            ;
            assert(out >= 0);
        }
        assert(m == Ok::<nat, ProgramError>(out as nat));
        if supply + out > 0 {
            lemma_governs(governed, vf, (supply + out) as nat, bps);
        }
    } else {
        if factor is Some {
            assert(supply as nat * (factor->0 as nat) == supply * factor->0);
        }
    }
}

/// A buy that is not the first lets the supply grow by the power law
/// `(vault after / vault before)^(backing / 10000)`, the donation counted as
/// there before: from above up to 48 parts in `2^48`, and from below up to 231
/// and the unit that rounding down may cost.
pub proof fn law_supply_grows_by_the_power_law(
    curve: &Curve,
    vault: u64,
    supply: u64,
    donation: u64,
    net: u64,
    min_out: u64,
    out: u64,
    price: u128,
)
    requires
        call_ensures(
            quote_buy,
            (curve, vault, supply, donation, net, min_out),
            Ok::<(u64, u128), ProgramError>((out, price)),
        ),
        supply > 0,
        curve.min_backing_bps <= 10_000,
    ensures
        ({
            let n: int = 0x1_0000_0000_0000;
            let w = curve.min_backing_bps as nat;
            let (v0, vf) = (vault + donation, vault + donation + net);
            let grown = pow(supply as int, 10_000) * pow(vf, w);
            &&& (pow(supply + out, 10_000) * pow(v0, w)) * pow(n, 480_000) <= grown * pow(
                n + 1,
                480_000,
            )
            &&& grown * pow(n, 2_310_000) <= (pow(supply + out + 1, 10_000) * pow(v0, w)) * pow(
                n + 1,
                2_310_000,
            )
        }),
{
    let n: int = 0x1_0000_0000_0000;
    let bps = curve.min_backing_bps;
    let w = bps as nat;
    let (v0, vf) = ((vault + donation) as nat, (vault + donation + net) as nat);
    assert(vf == v0 + net as nat && vault as nat + donation as nat == v0);
    let f = pow_ratio_fixed(vf, v0, bps)->0;
    let (s, s1) = (supply as int, supply + out);
    assert(one() == n && bps_unit() == 10_000);
    lemma_factor_at_least_one(vf, v0, bps);
    lemma_factor_upper(vf, v0, bps);
    lemma_factor_lower(vf, v0, bps);
    let a = supply as nat * f;
    lemma_is_quotient(a as int, n);
    assert(s1 * n <= s * f < (s1 + 1) * n) by {
        assert(a == s * f);
        assert(a >= supply * n) by (nonlinear_arith)
            requires
                a == supply as nat * f,
                f >= n,
        ;
        assert(s1 == a as int / n);
    }
    let (ft, nt) = (pow(f as int, 10_000), pow(n, 10_000));
    let (st, s1t, s2t) = (pow(s, 10_000), pow(s1, 10_000), pow(s1 + 1, 10_000));
    let (a0, af) = (pow(v0 as int, w), pow(vf as int, w));
    lemma_pow_le(s1 * n, s * f, 10_000);
    lemma_pow_le(s * f, (s1 + 1) * n, 10_000);
    lemma_pow_distributes(s1, n, 10_000);
    lemma_pow_distributes(s, f as int, 10_000);
    lemma_pow_distributes(s1 + 1, n, 10_000);
    lemma_pow_positive(n, 10_000);
    lemma_pow_nonneg(s, 10_000);
    lemma_pow_nonneg(v0 as int, w);
    lemma_pow_positive(n, 480_000);
    lemma_pow_positive(n + 1, 2_310_000);
    let (h, g) = (pow(n, 480_000), pow(n + 1, 480_000));
    let (i, k) = (pow(n, 2_310_000), pow(n + 1, 2_310_000));
    // Above: s1^T n^T <= s^T f^T and f^T a0 h <= af n^T g.
    assert((ft * a0) * h <= (af * nt) * g);
    assert((s1t * a0) * h <= (st * af) * g) by (nonlinear_arith)
        requires
            s1t * nt <= st * ft,
            (ft * a0) * h <= (af * nt) * g,
            0 <= a0,
            0 < h,
            0 <= st,
            0 < nt,
    {
        assert((s1t * nt) * (a0 * h) <= (st * ft) * (a0 * h)) by {
            assert(0 <= a0 * h);
        }
        assert(st * ((ft * a0) * h) <= st * ((af * nt) * g));
        assert((st * ft) * (a0 * h) == st * ((ft * a0) * h));
        assert(((s1t * a0) * h) * nt == (s1t * nt) * (a0 * h));
        assert(((st * af) * g) * nt == st * ((af * nt) * g));
        assert(((s1t * a0) * h) * nt <= ((st * af) * g) * nt);
    }
    // Below: af n^T i <= f^T a0 k and s^T f^T <= (s1 + 1)^T n^T.
    assert((af * nt) * i <= (ft * a0) * k);
    assert((st * af) * i <= (s2t * a0) * k) by (nonlinear_arith)
        requires
            st * ft <= s2t * nt,
            (af * nt) * i <= (ft * a0) * k,
            0 <= a0,
            0 < k,
            0 <= st,
            0 < nt,
    {
        assert((st * ft) * (a0 * k) <= (s2t * nt) * (a0 * k)) by {
            assert(0 <= a0 * k);
        }
        assert(st * ((af * nt) * i) <= st * ((ft * a0) * k));
        assert((st * ft) * (a0 * k) == st * ((ft * a0) * k));
        assert(((s2t * a0) * k) * nt == (s2t * nt) * (a0 * k));
        assert(((st * af) * i) * nt == st * ((af * nt) * i));
        assert(((st * af) * i) * nt <= ((s2t * a0) * k) * nt);
    }
}

// ---------------------------------------------------------------------------
// Sells
// ---------------------------------------------------------------------------

/// A sell of `units` is divided into these parts: together they are the units'
/// share of the vault, the creator's and the kept part are rounded down, and
/// nothing is kept where the last units leave.
pub open spec fn divides_sell(
    curve: Curve,
    vault: int,
    supply: int,
    units: int,
    to_seller: int,
    creator_fee: int,
    kept: int,
) -> bool {
    let gross = to_seller + creator_fee + kept;
    &&& is_quotient(gross, units * vault, supply)
    &&& is_share(creator_fee, gross, curve.sell_fee_creator_bps)
    &&& if units == supply {
        kept == 0
    } else {
        is_share(kept, gross, curve.sell_fee_floor_bps)
    }
}

/// A sell is divided without loss, and refused just where the seller would get
/// less than was asked for.
pub proof fn law_sells_are_divided(
    curve: &Curve,
    vault: u64,
    supply: u64,
    units: u64,
    min_out: u64,
    r: Result<SellSplit, ProgramError>,
)
    requires
        0 < supply,
        units <= supply,
        call_ensures(quote_sell, (curve, vault, supply, units, min_out), r),
    ensures
        r matches Ok(s) ==> s.to_seller >= min_out && divides_sell(
            *curve,
            vault as int,
            supply as int,
            units as int,
            s.to_seller as int,
            s.creator_fee as int,
            s.floor_keep as int,
        ),
        r matches Err(e) ==> e == ProgramError::Custom(E_SLIPPAGE) && forall|a: int, b: int, c: int|
            divides_sell(*curve, vault as int, supply as int, units as int, a, b, c) ==> a
                < min_out,
{
    let (v, s, u) = (vault as nat, supply as nat, units as nat);
    let g = sell_gross(v, s, u);
    assert(u * v == units * vault);
    lemma_is_quotient(units * vault, supply as int);
    lemma_is_share(g, curve.sell_fee_creator_bps);
    lemma_is_share(g, curve.sell_fee_floor_bps);
    if r is Err {
        assert forall|a: int, b: int, c: int|
            divides_sell(
                *curve,
                vault as int,
                supply as int,
                units as int,
                a,
                b,
                c,
            ) implies a < min_out by {
            lemma_one_quotient(a + b + c, units * vault, supply as int);
        }
    }
}

/// What backs the supply is what the curve's account holds above its rent.
pub proof fn law_backing_is_above_rent(
    lamports: u64,
    rent: Result<u64, ProgramError>,
    r: Result<u64, ProgramError>,
)
    requires
        call_ensures(backing, (lamports, rent), r),
    ensures
        rent matches Err(e) ==> r == Err::<u64, ProgramError>(e),
        rent matches Ok(floor) ==> r is Ok && (if lamports >= floor {
            r->Ok_0 + floor == lamports
        } else {
            r->Ok_0 == 0
        }),
{
}

} // verus!
