//! Quotes, and what they keep, on numbers.

use notch::error::{
    ProgramError, E_BUY_TOO_LARGE, E_CURVE_SATURATED, E_OVERFLOW, E_SLIPPAGE,
};
use notch::key::Pubkey;
use notch::market::{backing, quote_buy, quote_sell, split_buy};
use notch::state::{Curve, E18};

const SOL: u64 = 1_000_000_000;

fn curve() -> Curve {
    let key = Pubkey { bytes: [0; 32] };
    Curve {
        mint: key,
        buy_creator: key,
        sell_creator: key,
        price_fp: E18,
        double_vol: 25 * SOL,
        buy_fee_creator_bps: 100,
        buy_fee_floor_bps: 200,
        sell_fee_creator_bps: 100,
        sell_fee_floor_bps: 500,
        min_backing_bps: 9_350,
        cum_vol: 0,
        bump: 255,
    }
}

/// A launched token.
#[derive(Clone, Copy)]
struct Pool {
    curve: Curve,
    vault: u64,
    supply: u64,
}

impl Pool {
    fn new(curve: Curve) -> Pool {
        Pool { curve, vault: 0, supply: 0 }
    }

    fn buy(&mut self, lamports: u64) -> u64 {
        let s = split_buy(&self.curve, lamports);
        let (out, price) =
            quote_buy(&self.curve, self.vault, self.supply, s.donation, s.net, 0).unwrap();
        self.vault += s.donation + s.net;
        self.supply += out;
        self.curve.price_fp = price;
        out
    }

    fn sell(&mut self, units: u64) -> u64 {
        let s = quote_sell(&self.curve, self.vault, self.supply, units, 0).unwrap();
        self.vault -= s.to_seller + s.creator_fee;
        self.supply -= units;
        s.to_seller
    }

    fn floor(&self) -> u128 {
        self.vault as u128 * E18 / self.supply as u128
    }

    fn floor_not_below(&self, before: &Pool) -> bool {
        self.vault as u128 * before.supply as u128 >= before.vault as u128 * self.supply as u128
    }
}

#[test]
fn buys_are_divided() {
    let s = split_buy(&curve(), SOL);
    assert_eq!((s.creator_fee, s.donation, s.net), (10_000_000, 20_000_000, 970_000_000));
    let s = split_buy(&curve(), 99);
    assert_eq!((s.creator_fee, s.donation, s.net), (0, 1, 98));
    let s = split_buy(&curve(), u64::MAX);
    assert_eq!(s.creator_fee, 184_467_440_737_095_516);
    assert_eq!(s.donation, 368_934_881_474_191_032);
    assert_eq!(s.creator_fee + s.donation + s.net, u64::MAX);
}

#[test]
fn first_buy_mints_at_the_start_price() {
    let q = quote_buy(&curve(), 0, 0, 20_000_000, 970_000_000, 0);
    assert_eq!(q, Ok((970_000_000, 1_091_570_648_878_107_943)));
}

#[test]
fn later_buys_follow_the_power_law() {
    let mut pool = Pool::new(curve());
    assert_eq!(pool.buy(SOL), 970_000_000);
    assert_eq!(pool.buy(SOL), 850_175_241);
    assert_eq!(pool.curve.price_fp, 1_163_430_317_654_523_798);
    assert_eq!(pool.buy(SOL), 814_198_791);
    assert_eq!(pool.curve.price_fp, 1_205_778_127_802_048_618);
    assert_eq!((pool.vault, pool.supply), (2_970_000_000, 2_634_374_032));
}

#[test]
fn slippage_is_refused() {
    let c = curve();
    assert!(quote_buy(&c, 0, 0, 20_000_000, 970_000_000, 970_000_000).is_ok());
    assert_eq!(
        quote_buy(&c, 0, 0, 20_000_000, 970_000_000, 970_000_001),
        Err(ProgramError::Custom(E_SLIPPAGE))
    );
    // One lamport mints less than one unit at two lamports each.
    let dear = Curve { price_fp: 2 * E18, ..c };
    assert_eq!(quote_buy(&dear, 0, 0, 0, 1, 0), Err(ProgramError::Custom(E_SLIPPAGE)));
    assert_eq!(
        quote_sell(&c, 1_000, 100, 50, 471).err(),
        Some(ProgramError::Custom(E_SLIPPAGE))
    );
    assert!(quote_sell(&c, 1_000, 100, 50, 470).is_ok());
}

#[test]
fn supply_without_backing_cannot_grow() {
    assert_eq!(
        quote_buy(&curve(), 0, 5, 0, SOL, 0),
        Err(ProgramError::Custom(E_BUY_TOO_LARGE))
    );
}

#[test]
fn buys_far_beyond_the_pool_are_refused() {
    assert_eq!(
        quote_buy(&curve(), 1, u64::MAX, 0, u64::MAX, 0),
        Err(ProgramError::Custom(E_BUY_TOO_LARGE))
    );
}

#[test]
fn units_have_to_fit() {
    let cheap = Curve { price_fp: 1_000, ..curve() };
    assert_eq!(quote_buy(&cheap, 0, 0, 0, SOL, 0), Err(ProgramError::Custom(E_OVERFLOW)));
}

#[test]
fn price_is_capped() {
    // One unit backed by everything there is.
    let top = Curve { price_fp: 1_000_000_000_000_000_000_000_000_000_000, ..curve() };
    assert_eq!(
        quote_buy(&top, u64::MAX, 0, 0, 1_000_000_000_000, 0),
        Err(ProgramError::Custom(E_CURVE_SATURATED))
    );
    // Past 128 bits, too.
    assert_eq!(
        quote_buy(&top, u64::MAX, 0, u64::MAX, 1_000_000_000_000, 0),
        Err(ProgramError::Custom(E_CURVE_SATURATED))
    );
}

#[test]
fn sells_are_divided() {
    let s = quote_sell(&curve(), 2_970_000_000, 2_634_374_032, 1_317_187_016, 0).unwrap();
    assert_eq!((s.to_seller, s.creator_fee, s.floor_keep), (1_395_900_000, 14_850_000, 74_250_000));
}

#[test]
fn full_exit_pays_everything_out() {
    let s = quote_sell(&curve(), 990_000_000, 970_000_000, 970_000_000, 0).unwrap();
    assert_eq!((s.to_seller, s.creator_fee, s.floor_keep), (980_100_000, 9_900_000, 0));
    let mut pool = Pool::new(curve());
    let out = pool.buy(SOL);
    pool.buy(SOL);
    pool.sell(out);
    let rest = pool.supply;
    pool.sell(rest);
    assert_eq!((pool.vault, pool.supply), (0, 0));
}

#[test]
fn largest_sell_fits() {
    let s = quote_sell(&curve(), u64::MAX, u64::MAX, u64::MAX, 0).unwrap();
    assert_eq!(s.to_seller + s.creator_fee, u64::MAX);
}

#[test]
fn backing_is_what_exceeds_the_rent() {
    assert_eq!(backing(10, Ok(3)), Ok(7));
    assert_eq!(backing(3, Ok(3)), Ok(0));
    assert_eq!(backing(2, Ok(3)), Ok(0));
    assert_eq!(backing(2, Err(ProgramError::Runtime(9))), Err(ProgramError::Runtime(9)));
}

#[test]
fn price_floor_and_governor_hold_through_a_history() {
    let mut pool = Pool::new(curve());
    pool.buy(SOL);
    let mut seed: u64 = 42;
    for _ in 0..400 {
        seed = seed.wrapping_mul(6_364_136_223_846_793_005).wrapping_add(1_442_695_040_888_963_407);
        let before = pool;
        let pick = seed >> 33;
        if pick % 2 == 0 {
            pool.buy(SOL / 10 + pick % (2 * SOL));
        } else {
            pool.sell(1 + pick % (pool.supply / 2));
            assert_eq!(pool.curve.price_fp, before.curve.price_fp);
        }
        assert!(pool.curve.price_fp >= before.curve.price_fp);
        assert!(pool.floor_not_below(&before));
        assert!(pool.curve.price_fp * 9_350 <= pool.floor() * 10_000);
    }
}

#[test]
fn buy_leaves_the_governor_price() {
    let mut pool = Pool::new(curve());
    for lamports in [SOL, 7, 3 * SOL, 100 * SOL] {
        pool.buy(lamports);
        assert_eq!(pool.curve.price_fp, pool.floor() * 10_000 / 9_350);
    }
}

#[test]
fn donation_lifts_the_floor() {
    let mut pool = Pool::new(curve());
    pool.buy(SOL);
    let before = pool;
    pool.buy(SOL);
    assert!(pool.floor() > before.floor());
    let before = pool;
    pool.vault += 1_000;
    assert!(pool.floor() > before.floor());
}

#[test]
fn dump_lifts_the_floor_and_the_next_price() {
    let mut pool = Pool::new(curve());
    pool.buy(SOL);
    pool.buy(100 * SOL);
    let before = pool;
    pool.sell(before.supply / 2);
    assert!(pool.floor() > before.floor());
    assert_eq!(pool.curve.price_fp, before.curve.price_fp);
    pool.buy(SOL);
    assert!(pool.curve.price_fp > before.curve.price_fp);
}

#[test]
fn next_price_follows_the_raised_floor() {
    let mut pool = Pool::new(curve());
    pool.buy(SOL);
    pool.buy(10 * SOL);
    let before = pool;
    pool.sell(before.supply / 3);
    let raised = pool.floor() * 10_000 / 9_350;
    assert!(raised > before.curve.price_fp);
    pool.buy(1_000_000);
    assert!(pool.curve.price_fp >= raised);
}

#[test]
fn later_buyers_get_fewer_units() {
    let mut pool = Pool::new(curve());
    let first = pool.buy(SOL);
    let second = pool.buy(SOL);
    assert!(second < first);
}

#[test]
fn round_trip_loses_at_most_fifteen_percent_at_the_reference_backing() {
    let mut pool = Pool::new(curve());
    pool.buy(100 * SOL);
    for lamports in [SOL / 1_000, SOL, 50 * SOL, 1_000 * SOL] {
        let mut trip = pool;
        let out = trip.buy(lamports);
        let back = trip.sell(out);
        assert!(back <= lamports);
        assert!(100 * (back as u128 + 3) >= 85 * lamports as u128, "{lamports} -> {back}");
    }
}

#[test]
fn round_trip_loses_at_most_a_quarter_at_the_lowest_backing() {
    let mut pool = Pool::new(Curve { min_backing_bps: 8_250, ..curve() });
    pool.buy(100 * SOL);
    let out = pool.buy(SOL);
    let back = pool.sell(out);
    assert!(back <= 770_000_000);
    assert!(100 * (back as u128 + 3) >= 75 * SOL as u128);
}

#[test]
fn revival_after_a_full_exit_cannot_profit() {
    let mut pool = Pool::new(curve());
    pool.buy(30 * SOL);
    let price = pool.curve.price_fp;
    let supply = pool.supply;
    pool.sell(supply);
    let out = pool.buy(SOL);
    assert!(out > 0);
    assert!(pool.curve.price_fp >= price);
    assert!(pool.sell(out) <= SOL);
}

#[test]
fn first_buyer_owns_what_an_empty_market_holds() {
    let mut pool = Pool::new(curve());
    pool.vault = 5 * SOL;
    let out = pool.buy(SOL);
    assert!(pool.sell(out) > SOL);
}

#[test]
fn split_buys_agree() {
    let c = Curve { buy_fee_creator_bps: 0, buy_fee_floor_bps: 0, ..curve() };
    let mut whole = Pool::new(c);
    whole.buy(SOL);
    let mut split = whole;
    whole.buy(64 * SOL);
    split.buy(24 * SOL);
    split.buy(40 * SOL);
    assert_eq!(whole.vault, split.vault);
    assert!(whole.supply.abs_diff(split.supply) <= 10);
}

#[test]
fn buying_in_parts_agrees_with_buying_at_once() {
    let start = Curve {
        price_fp: 10_000_000_000_000,
        buy_fee_floor_bps: 0,
        min_backing_bps: 8_500,
        ..curve()
    };
    let bought = |parts: u64| {
        let mut pool = Pool::new(start);
        pool.buy(SOL);
        for _ in 0..parts {
            pool.buy(100 * SOL / parts);
        }
        pool
    };
    let once = bought(1);
    for parts in [1, 20, 200, 2_000] {
        let split = bought(parts);
        assert_eq!(split.vault, once.vault);
        assert!(split.supply.abs_diff(once.supply) < once.supply / 1_000_000);
    }
}

#[test]
fn exit_value_is_a_ratchet() {
    let mut pool = Pool::new(curve());
    let mine = pool.buy(SOL);
    pool.buy(5 * SOL);
    let worth = |pool: &Pool| -> (u128, u64) {
        let s = quote_sell(&pool.curve, pool.vault, pool.supply, mine, 0).unwrap();
        (mine as u128 * pool.vault as u128 / pool.supply as u128, s.to_seller)
    };
    let (mut gross, mut payout) = worth(&pool);
    for i in 1..50u64 {
        if i % 3 == 0 {
            pool.sell((pool.supply - mine) / i);
        } else {
            pool.buy(i * SOL / 7);
        }
        let (g, p) = worth(&pool);
        assert!(g >= gross && p + 1 >= payout);
        gross = g;
        payout = p;
    }
}

#[test]
fn sole_holder_pays_the_floor_share_once_others_join() {
    let mut pool = Pool::new(curve());
    let mine = pool.buy(SOL);
    let alone = quote_sell(&pool.curve, pool.vault, pool.supply, mine, 0).unwrap();
    pool.buy(1_000);
    let beside = quote_sell(&pool.curve, pool.vault, pool.supply, mine, 0).unwrap();
    assert!(beside.to_seller < alone.to_seller);
}

#[test]
fn vault_covers_all_holders() {
    let mut pool = Pool::new(curve());
    let mut left = 0u64;
    let mut bags = Vec::new();
    for lamports in [SOL, 3 * SOL + 1, 77, 12_345_678] {
        bags.push(pool.buy(lamports));
        left += bags[bags.len() - 1];
    }
    assert_eq!(left, pool.supply);
    let owed: u128 =
        bags.iter().map(|b| *b as u128 * pool.vault as u128 / pool.supply as u128).sum();
    assert!(owed <= pool.vault as u128);
    for bag in bags {
        pool.sell(bag);
    }
    assert_eq!((pool.vault, pool.supply), (0, 0));
}
