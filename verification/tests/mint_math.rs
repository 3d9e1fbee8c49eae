//! The power law of the mint, on numbers.

use notch::q48::{exp2_q, log2_q, pow_ratio_q, POW_F, POW_ONE};
use notch::state::E18;

/// A model of a market's buys.
struct Sim {
    v: u128,
    s: u128,
    price_fp: u128,
    backing_bps: u16,
    buy_creator_bps: u16,
    buy_floor_bps: u16,
}

impl Sim {
    fn new(backing_bps: u16, buy_floor_bps: u16) -> Self {
        Sim {
            v: 0,
            s: 0,
            price_fp: 10_000_000_000_000,
            backing_bps,
            buy_creator_bps: 100,
            buy_floor_bps,
        }
    }

    fn buy(&mut self, lamports: u128) -> u128 {
        let creator = lamports * self.buy_creator_bps as u128 / 10_000;
        let donation = lamports * self.buy_floor_bps as u128 / 10_000;
        let net = lamports - creator - donation;
        let v0 = self.v + donation;
        let vf = v0 + net;
        let out = if self.s == 0 {
            net * E18 / self.price_fp
        } else {
            let factor = pow_ratio_q(vf, v0, self.backing_bps).unwrap();
            (self.s * factor >> POW_F) - self.s
        };
        self.v = vf;
        self.s += out;
        out
    }

    fn floor_fp(&self) -> u128 {
        if self.s > 0 {
            self.v * E18 / self.s
        } else {
            0
        }
    }

    // Net lamports for `units` at 1% to the creator and 5% to the floor.
    fn sell_net(&self, units: u128) -> u128 {
        let gross = units * self.v / self.s;
        gross - gross * 100 / 10_000 - gross * 500 / 10_000
    }
}

#[test]
fn pow_matches_reference() {
    // (21)^0.935 ~= 17.22959, (60)^0.825 ~= 29.30723
    let a = pow_ratio_q(21_000_000_000, 1_000_000_000, 9350).unwrap() as f64 / POW_ONE as f64;
    let b = pow_ratio_q(60_000_000_000, 1_000_000_000, 8250).unwrap() as f64 / POW_ONE as f64;
    assert!((a - 17.229_593_87).abs() < 1e-6, "got {a}");
    assert!((b - 29.307_230_60).abs() < 1e-6, "got {b}");
}

#[test]
fn mint_is_path_independent() {
    // Without a donation the power law does not depend on how a buy is split.
    // Seed 1 SOL, then 100 SOL of follow-on volume; the supply must match.
    let sol = 1_000_000_000u128;
    let run = |parts: u128| -> u128 {
        let mut sim = Sim::new(8500, 0);
        sim.buy(sol);
        let chunk = 100 * sol / parts;
        for _ in 0..parts {
            sim.buy(chunk);
        }
        sim.s
    };
    let base = run(1);
    for parts in [20u128, 200, 2000] {
        let got = run(parts);
        let rel = (got as i128 - base as i128).unsigned_abs() as f64 / base as f64;
        assert!(rel < 1e-6, "split {parts}: supply {got} vs {base} (rel {rel:.2e})");
    }
}

#[test]
fn floor_never_falls() {
    // With a 2% donation and the governor, the floor must never fall.
    let sol = 1_000_000_000u128;
    let mut sim = Sim::new(8250, 200);
    sim.buy(sol);
    let mut last = sim.floor_fp();
    for i in 0..200u128 {
        sim.buy(sol + (i % 7) * sol / 3); // varied buy sizes
        let f = sim.floor_fp();
        assert!(f >= last, "floor fell at step {i}: {f} < {last}");
        last = f;
    }
}

#[test]
fn max_loss_within_25pct_at_floor_backing() {
    // 82.5% backing and 3%/6% fees: the worst instant round trip is 25%.
    let sol = 1_000_000_000u128;
    let mut sim = Sim::new(8250, 200);
    sim.buy(100 * sol); // establish a pool
    let spend = sol / 100; // small buy
    let got = sim.buy(spend);
    let back = sim.sell_net(got) as f64 / spend as f64;
    let loss = (1.0 - back) * 100.0;
    assert!(loss <= 25.0, "max loss {loss:.2}% exceeds 25%");
    assert!(loss > 20.0, "sanity: expected ~22-25%, got {loss:.2}%");
}

#[test]
fn logarithm_of_powers_of_two_is_exact() {
    assert_eq!(log2_q(POW_ONE), 0);
    assert_eq!(log2_q(2 * POW_ONE), POW_ONE);
    assert_eq!(log2_q(POW_ONE << 70), 70 * POW_ONE);
}

#[test]
fn logarithm_of_three() {
    let l = log2_q(3 * POW_ONE) as f64 / POW_ONE as f64;
    assert!((l - 3f64.log2()).abs() < 1e-12);
}

#[test]
fn exponential_of_whole_numbers_is_exact() {
    assert_eq!(exp2_q(0), POW_ONE);
    assert_eq!(exp2_q(POW_ONE), 2 * POW_ONE);
    assert_eq!(exp2_q(79 * POW_ONE), POW_ONE << 79);
}

#[test]
fn exponential_saturates() {
    assert_eq!(exp2_q(80 * POW_ONE), u128::MAX);
    assert_eq!(exp2_q(200 * POW_ONE), u128::MAX);
    assert_eq!(exp2_q(u128::MAX), u128::MAX);
}

#[test]
fn exponential_of_a_half() {
    assert_eq!(exp2_q(POW_ONE / 2), 398_065_729_532_861);
}

#[test]
fn ratio_has_to_be_at_least_one() {
    assert_eq!(pow_ratio_q(1, 0, 9_350), None);
    assert_eq!(pow_ratio_q(9, 10, 9_350), None);
    assert_eq!(pow_ratio_q(10, 10, 9_350), Some(POW_ONE));
}

#[test]
fn ratio_has_to_fit() {
    assert_eq!(pow_ratio_q(1 << 80, 1 << 79, 5_000), None);
    assert!(pow_ratio_q((1 << 80) - 1, 1 << 79, 5_000).is_some());
}

#[test]
fn power_has_to_fit() {
    assert_eq!(pow_ratio_q(1 << 79, 1, 20_000), None);
    assert_eq!(pow_ratio_q(1 << 79, 1, 10_000), Some(POW_ONE << 79));
    assert_eq!(pow_ratio_q(1 << 40, 1, 20_000), None);
    assert_eq!(pow_ratio_q(1 << 39, 1, 20_000), Some(POW_ONE << 78));
}

#[test]
fn whole_exponents_reproduce_the_ratio() {
    assert_eq!(pow_ratio_q(8, 2, 10_000), Some(4 * POW_ONE));
    assert_eq!(pow_ratio_q(8, 2, 5_000), Some(2 * POW_ONE));
    assert_eq!(pow_ratio_q(8, 2, 0), Some(POW_ONE));
}

#[test]
fn factor_never_exceeds_the_ratio() {
    for (num, den) in [(3u128, 2u128), (101, 100), (1_000_000_007, 3), (5, 5)] {
        for bps in [8_250u16, 9_350, 9_900] {
            let f = pow_ratio_q(num, den, bps).unwrap();
            assert!(f >= POW_ONE);
            assert!(f * den <= num * POW_ONE);
        }
    }
}

#[test]
fn two_factors_compose() {
    let n = POW_ONE;
    let f1 = pow_ratio_q(1_700, 1_000, 8_500).unwrap();
    let f2 = pow_ratio_q(2_900, 1_700, 8_500).unwrap();
    let f = pow_ratio_q(2_900, 1_000, 8_500).unwrap();
    let both = f1 * f2 / n;
    assert!(both.abs_diff(f) <= 2_100);
}

#[test]
fn factors_compose_at_every_exponent() {
    let triples = [(1u128, 3u128, 7u128), (1_000, 1_700, 2_900), (999, 1_000, 1_001), (5, 5, 6)];
    for (a, b, c) in triples {
        for bps in [0u16, 1, 5_000, 8_250, 9_350, 10_000] {
            let f1 = pow_ratio_q(b, a, bps).unwrap();
            let f2 = pow_ratio_q(c, b, bps).unwrap();
            let f = pow_ratio_q(c, a, bps).unwrap();
            let both = f1 * f2;
            assert!(both.abs_diff(f * POW_ONE) <= 510 * f);
            assert!((both / POW_ONE).abs_diff(f) << 38 <= f);
        }
    }
}

#[test]
fn exponential_undoes_the_logarithm() {
    let numbers = [
        POW_ONE,
        POW_ONE + 1,
        3 * POW_ONE,
        10 * POW_ONE + 12_345,
        (1 << 100) + 98_765_432_123,
        u128::MAX - 1,
        u128::MAX,
    ];
    for x in numbers {
        assert!(exp2_q(log2_q(x)).abs_diff(x) <= x >> 41);
    }
    for k in 48..128u32 {
        assert_eq!(exp2_q(log2_q(1 << k)), 1 << k);
    }
}
