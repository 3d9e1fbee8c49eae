//! The chunked schedule, on numbers.

use notch::schedule::{
    expected_buy, expected_sell, ratio_ok, reference_cfg, try_expected_buy, SOL,
};
use notch::state::E18;

#[test]
fn reference_launch_is_allowed() {
    let cfg = reference_cfg();
    assert!(cfg.is_allowed());
    assert_eq!(cfg.start_price_fp, 1_000_000_000_000_000_000);
    assert_eq!(cfg.double_vol, 25 * SOL);
    assert_eq!(cfg.min_backing_bps, 9_350);
}

#[test]
fn first_expected_buy() {
    let start = reference_cfg().start_price_fp;
    assert_eq!(expected_buy(start, SOL, 0, 0), (1_027_007_466_876_298_589, 954_927_934));
    assert_eq!(expected_buy(start, 50 * SOL, 0, 0), (2_531_641_309_913_943_828, 20_910_096_236));
}

#[test]
fn governed_expected_buy() {
    let (p, out) = expected_buy(1_027_007_466_876_298_589, 100 * SOL, 990_000_000, 954_927_934);
    assert_eq!((p, out), (3_526_454_430_724_423_595, 29_368_026_864));
}

#[test]
fn expected_buy_of_nothing() {
    assert_eq!(expected_buy(7, 0, 3, 5), (7, 0));
}

#[test]
fn expected_price_rises_to_the_governor_at_most() {
    let start = reference_cfg().start_price_fp;
    let (mut price, mut vault, mut supply) = (start, 0u128, 0u128);
    for lamports in [SOL, 1, 30 * SOL, 200 * SOL, 7] {
        let (p, out) = expected_buy(price, lamports, vault, supply);
        assert!(p >= price);
        // All but the creator's part reaches the vault.
        let (v, s) = (vault + (lamports - lamports / 100) as u128, supply + out);
        assert!(p <= price.max(v * E18 / s * 10_000 / 9_350));
        assert!(v * supply >= vault * s);
        (price, vault, supply) = (p, v, s);
    }
}

#[test]
fn expected_buy_has_to_fit() {
    assert_eq!(try_expected_buy(u128::MAX, SOL, 0, 0), None);
    assert_eq!(try_expected_buy(1, SOL, u128::MAX, 1), None);
    assert_eq!(try_expected_buy(1, SOL, 0, u128::MAX), None);
    // No price, no units.
    assert_eq!(try_expected_buy(0, SOL, 0, 0), None);
}

#[test]
fn expected_sells() {
    assert_eq!(expected_sell(50, 1_000, 100), (470, 475, 5));
    assert_eq!(
        expected_sell(1_317_187_016, 2_970_000_000, 2_634_374_032),
        (1_395_900_000, 1_410_750_000, 14_850_000)
    );
    // No floor share is kept where the last units leave.
    assert_eq!(expected_sell(100, 1_000, 100), (990, 1_000, 10));
    assert_eq!(expected_sell(1_000, 1_000, 1_000), (990, 1_000, 10));
}

#[test]
fn ratio_is_checked_with_a_slack() {
    assert!(ratio_ok(u128::MAX, 5, 0));
    assert!(ratio_ok(1_091_570_648_878_107_943, 990_000_000, 970_000_000));
    assert!(ratio_ok(1_091_570_700_000_000_000, 990_000_000, 970_000_000));
    assert!(!ratio_ok(1_091_580_000_000_000_000, 990_000_000, 970_000_000));
}
