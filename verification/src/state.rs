//! The curve's stored state, the instructions that act on it, and their byte
//! layouts.

use crate::bytes::{le_bytes, lemma_byte_powers, lemma_le_bytes_len, lemma_le_round_trip};
use crate::error::ProgramError;
use crate::key::Pubkey;
use vstd::arithmetic::power::pow;
use vstd::prelude::*;

verus! {

/// Seed of the curve's derived address, before the mint: the ASCII bytes of
/// `curve`.
pub const CURVE_SEED: [u8; 5] = [99, 117, 114, 118, 101];

/// Size of a stored curve: three addresses, two 128-bit and one 64-bit number,
/// five fee and backing rates, and the bump.
pub const CURVE_SIZE: usize = 147;

/// Fixed-point scale of prices: `price_fp` is lamports per whole token (`10^9`
/// base units), times `FP`.
pub const FP: u128 = 1_000_000_000;

/// Lamports per base unit are `price_fp / E18`.
pub const E18: u128 = 1_000_000_000_000_000_000;

/// Highest creator fee, per side: 5%.
pub const MAX_CREATOR_FEE_BPS: u16 = 500;

/// Highest share of a buy that is donated to the vault: 10%.
pub const MAX_BUY_FLOOR_BPS: u16 = 1_000;

/// Highest share of a sell that stays in the vault: 20%.
pub const MAX_SELL_FLOOR_BPS: u16 = 2_000;

/// Lowest backing: 82.5%.
pub const MIN_BACKING_FLOOR_BPS: u16 = 8_250;

/// Highest backing: 99%.
pub const MAX_BACKING_BPS: u16 = 9_900;

/// Lowest schedule volume: 1 SOL per doubling.
pub const MIN_DOUBLE_VOL: u64 = 1_000_000_000;

/// Highest schedule volume: 10000 SOL per doubling.
pub const MAX_DOUBLE_VOL: u64 = 10_000_000_000_000;

/// Lowest start price.
pub const MIN_START_PRICE_FP: u128 = 1_000;

/// Highest price a curve can report.
pub const MAX_PRICE_FP: u128 = 1_000_000_000_000_000_000_000_000_000_000;

/// A launched curve, as its account stores it.
#[derive(Clone, Copy, Debug)]
pub struct Curve {
    pub mint: Pubkey,
    /// Receives the creator's share of each buy.
    pub buy_creator: Pubkey,
    /// Receives the creator's share of each sell.
    pub sell_creator: Pubkey,
    /// Lamports per whole token, scaled by `FP`. Never decreases.
    pub price_fp: u128,
    /// Net buy lamports per price doubling. Kept for display.
    pub double_vol: u64,
    /// Share of a buy that goes to the creator, in basis points.
    pub buy_fee_creator_bps: u16,
    /// Share of a buy that is donated to the vault, in basis points.
    pub buy_fee_floor_bps: u16,
    /// Share of a sell that goes to the creator, in basis points.
    pub sell_fee_creator_bps: u16,
    /// Share of a sell that stays in the vault, in basis points.
    pub sell_fee_floor_bps: u16,
    /// The governor: the floor is at least this share of the price.
    pub min_backing_bps: u16,
    /// Net buy lamports so far.
    pub cum_vol: u128,
    pub bump: u8,
}

/// The configuration of a launch, fixed for its lifetime.
#[derive(Clone, Copy, Debug)]
pub struct LaunchCfg {
    pub start_price_fp: u128,
    pub double_vol: u64,
    pub buy_fee_creator_bps: u16,
    pub buy_fee_floor_bps: u16,
    pub sell_fee_creator_bps: u16,
    pub sell_fee_floor_bps: u16,
    pub min_backing_bps: u16,
}

/// What can be asked of the vault.
#[derive(Clone, Copy, Debug)]
pub enum CurveInstruction {
    /// Create the curve of a mint.
    Initialize {
        buy_creator: Pubkey,
        sell_creator: Pubkey,
        start_price_fp: u128,
        double_vol: u64,
        buy_fee_creator_bps: u16,
        buy_fee_floor_bps: u16,
        sell_fee_creator_bps: u16,
        sell_fee_floor_bps: u16,
        min_backing_bps: u16,
    },
    /// Pay `lamports` for at least `min_out` base units.
    Buy { lamports: u64, min_out: u64 },
    /// Burn `units` base units for at least `min_out` lamports.
    Sell { units: u64, min_out: u64 },
}

impl Default for Curve {
    /// A curve whose fields are all zero.
    fn default() -> (r: Curve)
        ensures
            curve_bytes(r) == Seq::new(CURVE_SIZE as nat, |i: int| 0u8),
            r.price_fp == 0 && r.double_vol == 0 && r.cum_vol == 0 && r.bump == 0,
    {
        let key = Pubkey::default();
        let r = Curve {
            mint: key,
            buy_creator: key,
            sell_creator: key,
            price_fp: 0,
            double_vol: 0,
            buy_fee_creator_bps: 0,
            buy_fee_floor_bps: 0,
            sell_fee_creator_bps: 0,
            sell_fee_floor_bps: 0,
            min_backing_bps: 0,
            cum_vol: 0,
            bump: 0,
        };
        proof {
            lemma_zero_bytes(2);
            lemma_zero_bytes(8);
            lemma_zero_bytes(16);
            lemma_curve_size(r);
            assert(curve_bytes(r) =~= Seq::new(CURVE_SIZE as nat, |i: int| 0u8));
        }
        r
    }
}

impl LaunchCfg {
    /// The configuration is inside the caps that every launch has to keep.
    pub open spec fn allowed(self) -> bool {
        &&& MIN_START_PRICE_FP <= self.start_price_fp <= MAX_PRICE_FP
        &&& MIN_DOUBLE_VOL <= self.double_vol <= MAX_DOUBLE_VOL
        &&& self.buy_fee_creator_bps <= MAX_CREATOR_FEE_BPS
        &&& self.sell_fee_creator_bps <= MAX_CREATOR_FEE_BPS
        &&& self.buy_fee_floor_bps <= MAX_BUY_FLOOR_BPS
        &&& self.sell_fee_floor_bps <= MAX_SELL_FLOOR_BPS
        &&& MIN_BACKING_FLOOR_BPS <= self.min_backing_bps <= MAX_BACKING_BPS
    }

    /// Whether the configuration is inside the caps.
    pub fn is_allowed(&self) -> (r: bool)
        ensures
            r == self.allowed(),
    {
        MIN_START_PRICE_FP <= self.start_price_fp && self.start_price_fp <= MAX_PRICE_FP
            && MIN_DOUBLE_VOL <= self.double_vol && self.double_vol <= MAX_DOUBLE_VOL
            && self.buy_fee_creator_bps <= MAX_CREATOR_FEE_BPS && self.sell_fee_creator_bps
            <= MAX_CREATOR_FEE_BPS && self.buy_fee_floor_bps <= MAX_BUY_FLOOR_BPS
            && self.sell_fee_floor_bps <= MAX_SELL_FLOOR_BPS && MIN_BACKING_FLOOR_BPS
            <= self.min_backing_bps && self.min_backing_bps <= MAX_BACKING_BPS
    }
}

impl Curve {
    /// The configuration the curve was launched with, with its present price in
    /// place of the start price.
    pub open spec fn cfg(self) -> LaunchCfg {
        LaunchCfg {
            start_price_fp: self.price_fp,
            double_vol: self.double_vol,
            buy_fee_creator_bps: self.buy_fee_creator_bps,
            buy_fee_floor_bps: self.buy_fee_floor_bps,
            sell_fee_creator_bps: self.sell_fee_creator_bps,
            sell_fee_floor_bps: self.sell_fee_floor_bps,
            min_backing_bps: self.min_backing_bps,
        }
    }

    /// The curve's rates and price are inside the caps.
    pub open spec fn well_formed(self) -> bool {
        self.cfg().allowed()
    }

    /// The fees of a buy, or of a sell, take at most everything.
    pub open spec fn fees_fit(self, buying: bool) -> bool {
        if buying {
            self.buy_fee_creator_bps + self.buy_fee_floor_bps <= 10_000
        } else {
            self.sell_fee_creator_bps + self.sell_fee_floor_bps <= 10_000
        }
    }

    /// Whether the fees of a buy, or of a sell, take at most everything.
    pub fn check_fees(&self, buying: bool) -> (r: bool)
        ensures
            r == self.fees_fit(buying),
    {
        if buying {
            self.buy_fee_creator_bps as u32 + self.buy_fee_floor_bps as u32 <= 10_000
        } else {
            self.sell_fee_creator_bps as u32 + self.sell_fee_floor_bps as u32 <= 10_000
        }
    }
}

// ---------------------------------------------------------------------------
// Layout
// ---------------------------------------------------------------------------

/// The five rates, two bytes each.
pub open spec fn rate_bytes(a: u16, b: u16, c: u16, d: u16, e: u16) -> Seq<u8> {
    le_bytes(a as nat, 2) + le_bytes(b as nat, 2) + le_bytes(c as nat, 2) + le_bytes(d as nat, 2)
        + le_bytes(e as nat, 2)
}

/// How a curve is stored: its fields in order, integers little-endian.
pub open spec fn curve_bytes(c: Curve) -> Seq<u8> {
    c.mint@ + c.buy_creator@ + c.sell_creator@ + le_bytes(c.price_fp as nat, 16) + le_bytes(
        c.double_vol as nat,
        8,
    ) + rate_bytes(
        c.buy_fee_creator_bps,
        c.buy_fee_floor_bps,
        c.sell_fee_creator_bps,
        c.sell_fee_floor_bps,
        c.min_backing_bps,
    ) + le_bytes(c.cum_vol as nat, 16) + seq![c.bump]
}

/// How a launch is sent: a byte that tells instructions apart, both creators
/// and the configuration.
pub open spec fn launch_bytes(
    tag: u8,
    buy_creator: Pubkey,
    sell_creator: Pubkey,
    cfg: LaunchCfg,
) -> Seq<u8> {
    seq![tag] + buy_creator@ + sell_creator@ + le_bytes(cfg.start_price_fp as nat, 16) + le_bytes(
        cfg.double_vol as nat,
        8,
    ) + rate_bytes(
        cfg.buy_fee_creator_bps,
        cfg.buy_fee_floor_bps,
        cfg.sell_fee_creator_bps,
        cfg.sell_fee_floor_bps,
        cfg.min_backing_bps,
    )
}

/// How a trade is sent: a byte that tells instructions apart, the amount and
/// the least that it has to yield.
pub open spec fn trade_bytes(tag: u8, amount: u64, min_out: u64) -> Seq<u8> {
    seq![tag] + le_bytes(amount as nat, 8) + le_bytes(min_out as nat, 8)
}

/// How an instruction is sent.
pub open spec fn instruction_bytes(ix: CurveInstruction) -> Seq<u8> {
    match ix {
        CurveInstruction::Initialize {
            buy_creator,
            sell_creator,
            start_price_fp,
            double_vol,
            buy_fee_creator_bps,
            buy_fee_floor_bps,
            sell_fee_creator_bps,
            sell_fee_floor_bps,
            min_backing_bps,
        } => launch_bytes(
            0,
            buy_creator,
            sell_creator,
            LaunchCfg {
                start_price_fp,
                double_vol,
                buy_fee_creator_bps,
                buy_fee_floor_bps,
                sell_fee_creator_bps,
                sell_fee_floor_bps,
                min_backing_bps,
            },
        ),
        CurveInstruction::Buy { lamports, min_out } => trade_bytes(1, lamports, min_out),
        CurveInstruction::Sell { units, min_out } => trade_bytes(2, units, min_out),
    }
}

/// The curve that `data` stores, if it stores one.
pub open spec fn stored_curve(data: Seq<u8>) -> Option<Curve> {
    if exists|c: Curve| curve_bytes(c) == data {
        Some(choose|c: Curve| curve_bytes(c) == data)
    } else {
        None
    }
}

/// The instruction that `data` sends, if it sends one.
pub open spec fn sent_instruction(data: Seq<u8>) -> Option<CurveInstruction> {
    if exists|ix: CurveInstruction| instruction_bytes(ix) == data {
        Some(choose|ix: CurveInstruction| instruction_bytes(ix) == data)
    } else {
        None
    }
}

/// Equal concatenations with tails of one length have equal parts.
proof fn lemma_split_tail(a: Seq<u8>, b: Seq<u8>, c: Seq<u8>, d: Seq<u8>)
    requires
        a + b == c + d,
        b.len() == d.len(),
    ensures
        a == c,
        b == d,
{
    let n = a.len() as int;
    assert((a + b).len() == (c + d).len());
    assert(a =~= (a + b).subrange(0, n));
    assert(c =~= (c + d).subrange(0, n));
    assert(b =~= (a + b).subrange(n, (a + b).len() as int));
    assert(d =~= (c + d).subrange(n, (c + d).len() as int));
}

/// Numbers that fit are told apart by their bytes.
proof fn lemma_le_injective(x: nat, y: nat, n: nat)
    requires
        x < pow(256, n),
        y < pow(256, n),
        le_bytes(x, n) == le_bytes(y, n),
    ensures
        x == y,
{
    lemma_le_round_trip(x, n);
    lemma_le_round_trip(y, n);
}

/// Addresses are told apart by their bytes.
proof fn lemma_key_injective(a: Pubkey, b: Pubkey)
    requires
        a@ == b@,
    ensures
        a == b,
{
    assert(a.bytes =~= b.bytes);
}

/// The bytes of zero are zero.
proof fn lemma_zero_bytes(n: nat)
    ensures
        le_bytes(0, n) == Seq::new(n, |i: int| 0u8),
    decreases n,
{
    if n > 0 {
        lemma_zero_bytes((n - 1) as nat);
    }
    assert(le_bytes(0, n) =~= Seq::new(n, |i: int| 0u8));
}

/// The five rates take ten bytes.
proof fn lemma_rates_len(a: u16, b: u16, c: u16, d: u16, e: u16)
    ensures
        rate_bytes(a, b, c, d, e).len() == 10,
{
    lemma_le_bytes_len(a as nat, 2);
    lemma_le_bytes_len(b as nat, 2);
    lemma_le_bytes_len(c as nat, 2);
    lemma_le_bytes_len(d as nat, 2);
    lemma_le_bytes_len(e as nat, 2);
}

/// Rates are told apart by their bytes.
proof fn lemma_rates_injective(
    a: u16,
    b: u16,
    c: u16,
    d: u16,
    e: u16,
    f: u16,
    g: u16,
    h: u16,
    i: u16,
    j: u16,
)
    requires
        rate_bytes(a, b, c, d, e) == rate_bytes(f, g, h, i, j),
    ensures
        a == f && b == g && c == h && d == i && e == j,
{
    lemma_byte_powers();
    lemma_rates_len(a, b, c, d, e);
    lemma_rates_len(f, g, h, i, j);
    let (la, lb, lc, ld, le) = (
        le_bytes(a as nat, 2),
        le_bytes(b as nat, 2),
        le_bytes(c as nat, 2),
        le_bytes(d as nat, 2),
        le_bytes(e as nat, 2),
    );
    let (lf, lg, lh, li, lj) = (
        le_bytes(f as nat, 2),
        le_bytes(g as nat, 2),
        le_bytes(h as nat, 2),
        le_bytes(i as nat, 2),
        le_bytes(j as nat, 2),
    );
    lemma_le_bytes_len(b as nat, 2);
    lemma_le_bytes_len(c as nat, 2);
    lemma_le_bytes_len(d as nat, 2);
    lemma_le_bytes_len(e as nat, 2);
    lemma_le_bytes_len(g as nat, 2);
    lemma_le_bytes_len(h as nat, 2);
    lemma_le_bytes_len(i as nat, 2);
    lemma_le_bytes_len(j as nat, 2);
    lemma_split_tail(la + lb + lc + ld, le, lf + lg + lh + li, lj);
    lemma_split_tail(la + lb + lc, ld, lf + lg + lh, li);
    lemma_split_tail(la + lb, lc, lf + lg, lh);
    lemma_split_tail(la, lb, lf, lg);
    lemma_le_injective(a as nat, f as nat, 2);
    lemma_le_injective(b as nat, g as nat, 2);
    lemma_le_injective(c as nat, h as nat, 2);
    lemma_le_injective(d as nat, i as nat, 2);
    lemma_le_injective(e as nat, j as nat, 2);
}

/// A stored curve takes `CURVE_SIZE` bytes.
pub proof fn lemma_curve_size(c: Curve)
    ensures
        curve_bytes(c).len() == CURVE_SIZE,
{
    lemma_le_bytes_len(c.price_fp as nat, 16);
    lemma_le_bytes_len(c.double_vol as nat, 8);
    lemma_le_bytes_len(c.cum_vol as nat, 16);
    lemma_rates_len(
        c.buy_fee_creator_bps,
        c.buy_fee_floor_bps,
        c.sell_fee_creator_bps,
        c.sell_fee_floor_bps,
        c.min_backing_bps,
    );
}

/// Two curves that are stored alike are one.
pub proof fn lemma_curve_injective(c: Curve, d: Curve)
    requires
        curve_bytes(c) == curve_bytes(d),
    ensures
        c == d,
{
    lemma_byte_powers();
    lemma_curve_size(c);
    lemma_curve_size(d);
    let (c1, d1) = (c.mint@ + c.buy_creator@, d.mint@ + d.buy_creator@);
    let (c2, d2) = (c1 + c.sell_creator@, d1 + d.sell_creator@);
    let (pc, pd) = (le_bytes(c.price_fp as nat, 16), le_bytes(d.price_fp as nat, 16));
    let (vc, vd) = (le_bytes(c.double_vol as nat, 8), le_bytes(d.double_vol as nat, 8));
    let (uc, ud) = (le_bytes(c.cum_vol as nat, 16), le_bytes(d.cum_vol as nat, 16));
    let rc = rate_bytes(
        c.buy_fee_creator_bps,
        c.buy_fee_floor_bps,
        c.sell_fee_creator_bps,
        c.sell_fee_floor_bps,
        c.min_backing_bps,
    );
    let rd = rate_bytes(
        d.buy_fee_creator_bps,
        d.buy_fee_floor_bps,
        d.sell_fee_creator_bps,
        d.sell_fee_floor_bps,
        d.min_backing_bps,
    );
    lemma_le_bytes_len(c.price_fp as nat, 16);
    lemma_le_bytes_len(d.price_fp as nat, 16);
    lemma_le_bytes_len(c.double_vol as nat, 8);
    lemma_le_bytes_len(d.double_vol as nat, 8);
    lemma_le_bytes_len(c.cum_vol as nat, 16);
    lemma_le_bytes_len(d.cum_vol as nat, 16);
    lemma_rates_len(
        c.buy_fee_creator_bps,
        c.buy_fee_floor_bps,
        c.sell_fee_creator_bps,
        c.sell_fee_floor_bps,
        c.min_backing_bps,
    );
    lemma_rates_len(
        d.buy_fee_creator_bps,
        d.buy_fee_floor_bps,
        d.sell_fee_creator_bps,
        d.sell_fee_floor_bps,
        d.min_backing_bps,
    );
    lemma_split_tail(c2 + pc + vc + rc + uc, seq![c.bump], d2 + pd + vd + rd + ud, seq![d.bump]);
    assert(seq![c.bump][0] == seq![d.bump][0]);
    lemma_split_tail(c2 + pc + vc + rc, uc, d2 + pd + vd + rd, ud);
    lemma_split_tail(c2 + pc + vc, rc, d2 + pd + vd, rd);
    lemma_split_tail(c2 + pc, vc, d2 + pd, vd);
    lemma_split_tail(c2, pc, d2, pd);
    lemma_split_tail(c1, c.sell_creator@, d1, d.sell_creator@);
    lemma_split_tail(c.mint@, c.buy_creator@, d.mint@, d.buy_creator@);
    lemma_le_injective(c.price_fp as nat, d.price_fp as nat, 16);
    lemma_le_injective(c.double_vol as nat, d.double_vol as nat, 8);
    lemma_le_injective(c.cum_vol as nat, d.cum_vol as nat, 16);
    lemma_rates_injective(
        c.buy_fee_creator_bps,
        c.buy_fee_floor_bps,
        c.sell_fee_creator_bps,
        c.sell_fee_floor_bps,
        c.min_backing_bps,
        d.buy_fee_creator_bps,
        d.buy_fee_floor_bps,
        d.sell_fee_creator_bps,
        d.sell_fee_floor_bps,
        d.min_backing_bps,
    );
    lemma_key_injective(c.mint, d.mint);
    lemma_key_injective(c.buy_creator, d.buy_creator);
    lemma_key_injective(c.sell_creator, d.sell_creator);
}

/// A launch takes 99 bytes and opens with its tag.
proof fn lemma_launch_len(tag: u8, buy_creator: Pubkey, sell_creator: Pubkey, cfg: LaunchCfg)
    ensures
        launch_bytes(tag, buy_creator, sell_creator, cfg).len() == 99,
        launch_bytes(tag, buy_creator, sell_creator, cfg)[0] == tag,
{
    lemma_le_bytes_len(cfg.start_price_fp as nat, 16);
    lemma_le_bytes_len(cfg.double_vol as nat, 8);
    lemma_rates_len(
        cfg.buy_fee_creator_bps,
        cfg.buy_fee_floor_bps,
        cfg.sell_fee_creator_bps,
        cfg.sell_fee_floor_bps,
        cfg.min_backing_bps,
    );
}

/// A trade takes 17 bytes and opens with its tag.
proof fn lemma_trade_len(tag: u8, amount: u64, min_out: u64)
    ensures
        trade_bytes(tag, amount, min_out).len() == 17,
        trade_bytes(tag, amount, min_out)[0] == tag,
{
    lemma_le_bytes_len(amount as nat, 8);
    lemma_le_bytes_len(min_out as nat, 8);
}

/// Two trades that are sent alike are one.
proof fn lemma_trade_injective(tag: u8, a: u64, b: u64, tug: u8, c: u64, d: u64)
    requires
        trade_bytes(tag, a, b) == trade_bytes(tug, c, d),
    ensures
        tag == tug && a == c && b == d,
{
    lemma_byte_powers();
    lemma_trade_len(tag, a, b);
    lemma_trade_len(tug, c, d);
    lemma_le_bytes_len(a as nat, 8);
    lemma_le_bytes_len(b as nat, 8);
    lemma_le_bytes_len(c as nat, 8);
    lemma_le_bytes_len(d as nat, 8);
    lemma_split_tail(
        seq![tag] + le_bytes(a as nat, 8),
        le_bytes(b as nat, 8),
        seq![tug] + le_bytes(c as nat, 8),
        le_bytes(d as nat, 8),
    );
    lemma_split_tail(seq![tag], le_bytes(a as nat, 8), seq![tug], le_bytes(c as nat, 8));
    lemma_le_injective(a as nat, c as nat, 8);
    lemma_le_injective(b as nat, d as nat, 8);
}

/// Two launches that are sent alike are one.
proof fn lemma_launch_injective(
    tag: u8,
    bc: Pubkey,
    sc: Pubkey,
    c: LaunchCfg,
    tug: u8,
    bd: Pubkey,
    sd: Pubkey,
    d: LaunchCfg,
)
    requires
        launch_bytes(tag, bc, sc, c) == launch_bytes(tug, bd, sd, d),
    ensures
        tag == tug && bc == bd && sc == sd && c == d,
{
    lemma_byte_powers();
    lemma_launch_len(tag, bc, sc, c);
    lemma_launch_len(tug, bd, sd, d);
    let (pc, pd) = (le_bytes(c.start_price_fp as nat, 16), le_bytes(d.start_price_fp as nat, 16));
    let (vc, vd) = (le_bytes(c.double_vol as nat, 8), le_bytes(d.double_vol as nat, 8));
    let rc = rate_bytes(
        c.buy_fee_creator_bps,
        c.buy_fee_floor_bps,
        c.sell_fee_creator_bps,
        c.sell_fee_floor_bps,
        c.min_backing_bps,
    );
    let rd = rate_bytes(
        d.buy_fee_creator_bps,
        d.buy_fee_floor_bps,
        d.sell_fee_creator_bps,
        d.sell_fee_floor_bps,
        d.min_backing_bps,
    );
    lemma_le_bytes_len(c.start_price_fp as nat, 16);
    lemma_le_bytes_len(d.start_price_fp as nat, 16);
    lemma_le_bytes_len(c.double_vol as nat, 8);
    lemma_le_bytes_len(d.double_vol as nat, 8);
    lemma_rates_len(
        c.buy_fee_creator_bps,
        c.buy_fee_floor_bps,
        c.sell_fee_creator_bps,
        c.sell_fee_floor_bps,
        c.min_backing_bps,
    );
    lemma_rates_len(
        d.buy_fee_creator_bps,
        d.buy_fee_floor_bps,
        d.sell_fee_creator_bps,
        d.sell_fee_floor_bps,
        d.min_backing_bps,
    );
    let (hc, hd) = (seq![tag] + bc@ + sc@, seq![tug] + bd@ + sd@);
    lemma_split_tail(hc + pc + vc, rc, hd + pd + vd, rd);
    lemma_split_tail(hc + pc, vc, hd + pd, vd);
    lemma_split_tail(hc, pc, hd, pd);
    lemma_split_tail(seq![tag] + bc@, sc@, seq![tug] + bd@, sd@);
    lemma_split_tail(seq![tag], bc@, seq![tug], bd@);
    lemma_le_injective(c.start_price_fp as nat, d.start_price_fp as nat, 16);
    lemma_le_injective(c.double_vol as nat, d.double_vol as nat, 8);
    lemma_rates_injective(
        c.buy_fee_creator_bps,
        c.buy_fee_floor_bps,
        c.sell_fee_creator_bps,
        c.sell_fee_floor_bps,
        c.min_backing_bps,
        d.buy_fee_creator_bps,
        d.buy_fee_floor_bps,
        d.sell_fee_creator_bps,
        d.sell_fee_floor_bps,
        d.min_backing_bps,
    );
    lemma_key_injective(bc, bd);
    lemma_key_injective(sc, sd);
}

/// The bytes of an instruction open with its tag.
proof fn lemma_instruction_tag(ix: CurveInstruction)
    ensures
        instruction_bytes(ix).len() == if ix is Initialize {
            99nat
        } else {
            17nat
        },
        instruction_bytes(ix)[0] == match ix {
            CurveInstruction::Initialize { .. } => 0u8,
            CurveInstruction::Buy { .. } => 1u8,
            CurveInstruction::Sell { .. } => 2u8,
        },
{
    match ix {
        CurveInstruction::Initialize {
            buy_creator,
            sell_creator,
            start_price_fp,
            double_vol,
            buy_fee_creator_bps,
            buy_fee_floor_bps,
            sell_fee_creator_bps,
            sell_fee_floor_bps,
            min_backing_bps,
        } => lemma_launch_len(
            0,
            buy_creator,
            sell_creator,
            LaunchCfg {
                start_price_fp,
                double_vol,
                buy_fee_creator_bps,
                buy_fee_floor_bps,
                sell_fee_creator_bps,
                sell_fee_floor_bps,
                min_backing_bps,
            },
        ),
        CurveInstruction::Buy { lamports, min_out } => lemma_trade_len(1, lamports, min_out),
        CurveInstruction::Sell { units, min_out } => lemma_trade_len(2, units, min_out),
    }
}

/// Two instructions that are sent alike are one.
pub proof fn lemma_instruction_injective(a: CurveInstruction, b: CurveInstruction)
    requires
        instruction_bytes(a) == instruction_bytes(b),
    ensures
        a == b,
{
    lemma_instruction_tag(a);
    lemma_instruction_tag(b);
    match (a, b) {
        (
            CurveInstruction::Initialize {
                buy_creator: bc,
                sell_creator: sc,
                start_price_fp: p,
                double_vol: v,
                buy_fee_creator_bps: r0,
                buy_fee_floor_bps: r1,
                sell_fee_creator_bps: r2,
                sell_fee_floor_bps: r3,
                min_backing_bps: r4,
            },
            CurveInstruction::Initialize {
                buy_creator: bd,
                sell_creator: sd,
                start_price_fp: q,
                double_vol: w,
                buy_fee_creator_bps: s0,
                buy_fee_floor_bps: s1,
                sell_fee_creator_bps: s2,
                sell_fee_floor_bps: s3,
                min_backing_bps: s4,
            },
        ) => {
            let c = LaunchCfg {
                start_price_fp: p,
                double_vol: v,
                buy_fee_creator_bps: r0,
                buy_fee_floor_bps: r1,
                sell_fee_creator_bps: r2,
                sell_fee_floor_bps: r3,
                min_backing_bps: r4,
            };
            let d = LaunchCfg {
                start_price_fp: q,
                double_vol: w,
                buy_fee_creator_bps: s0,
                buy_fee_floor_bps: s1,
                sell_fee_creator_bps: s2,
                sell_fee_floor_bps: s3,
                min_backing_bps: s4,
            };
            lemma_launch_injective(0, bc, sc, c, 0, bd, sd, d);
        },
        (
            CurveInstruction::Buy { lamports: x, min_out: m },
            CurveInstruction::Buy { lamports: y, min_out: n },
        ) => lemma_trade_injective(1, x, m, 1, y, n),
        (
            CurveInstruction::Sell { units: x, min_out: m },
            CurveInstruction::Sell { units: y, min_out: n },
        ) => lemma_trade_injective(2, x, m, 2, y, n),
        _ => {},
    }
}

/// What is stored is what is read back.
pub proof fn lemma_curve_round_trip(c: Curve)
    ensures
        stored_curve(curve_bytes(c)) == Some(c),
{
    let data = curve_bytes(c);
    assert(exists|d: Curve| curve_bytes(d) == data);
    let d = choose|d: Curve| curve_bytes(d) == data;
    lemma_curve_injective(c, d);
}

/// What is sent is what is received.
pub proof fn lemma_instruction_round_trip(ix: CurveInstruction)
    ensures
        sent_instruction(instruction_bytes(ix)) == Some(ix),
{
    let data = instruction_bytes(ix);
    assert(exists|d: CurveInstruction| instruction_bytes(d) == data);
    let d = choose|d: CurveInstruction| instruction_bytes(d) == data;
    lemma_instruction_injective(ix, d);
}

// ---------------------------------------------------------------------------
// Reading and writing
// ---------------------------------------------------------------------------

/// Why bytes do not hold a value; opaque here.
#[verifier::external_type_specification]
#[verifier::external_body]
pub struct ExIoError(borsh::io::Error);

/// Calls `borsh::BorshDeserialize::try_from_slice` on a tuple of the curve's
/// fields. Trusted: it reads the fields in order, and fails just where the
/// input is not exactly as long as they are.
#[verifier::external_body]
fn read_curve(data: &[u8]) -> (r: Result<Curve, borsh::io::Error>)
    ensures
        r is Ok <==> data@.len() == CURVE_SIZE,
        r matches Ok(c) ==> curve_bytes(c) == data@,
{
    let (mint, bc, sc, price_fp, double_vol, b, bf, s, sf, min_backing_bps, cum_vol, bump): (
        [u8; 32], [u8; 32], [u8; 32], u128, u64, u16, u16, u16, u16, u16, u128, u8,
    ) = borsh::BorshDeserialize::try_from_slice(data)?;
    let mint = Pubkey { bytes: mint };
    let buy_creator = Pubkey { bytes: bc };
    let sell_creator = Pubkey { bytes: sc };
    let (buy_fee_creator_bps, buy_fee_floor_bps) = (b, bf);
    let (sell_fee_creator_bps, sell_fee_floor_bps) = (s, sf);
    Ok(Curve { mint, buy_creator, sell_creator, price_fp, double_vol, buy_fee_creator_bps,
        buy_fee_floor_bps, sell_fee_creator_bps, sell_fee_floor_bps, min_backing_bps, cum_vol, bump })
}

/// Calls `borsh::BorshSerialize::serialize` on a tuple of the curve's fields,
/// with a byte slice to write to. Trusted: it writes the fields in order from
/// the start of the slice, leaves what follows them alone, and fails just where
/// the slice is too short, having filled it.
#[verifier::external_body]
fn write_curve(c: &Curve, data: &mut [u8]) -> (r: Result<(), borsh::io::Error>)
    ensures
        r is Ok <==> CURVE_SIZE <= old(data)@.len(),
        r is Ok ==> final(data)@ == curve_bytes(*c) + old(data)@.skip(CURVE_SIZE as int),
        r is Err ==> final(data)@ == curve_bytes(*c).take(old(data)@.len() as int),
{
    let keys = (c.mint.bytes, c.buy_creator.bytes, c.sell_creator.bytes);
    let buy = (c.buy_fee_creator_bps, c.buy_fee_floor_bps);
    let sell = (c.sell_fee_creator_bps, c.sell_fee_floor_bps);
    let fields = (keys, c.price_fp, c.double_vol, buy, sell, c.min_backing_bps, c.cum_vol, c.bump);
    borsh::BorshSerialize::serialize(&fields, &mut &mut data[..])
}

/// Calls `borsh::BorshDeserialize::try_from_slice` on a tuple of a launch's
/// fields. Trusted: it reads the fields in order, and fails just where the
/// input is not exactly as long as they are.
#[verifier::external_body]
fn read_launch(data: &[u8]) -> (r: Result<(u8, Pubkey, Pubkey, LaunchCfg), borsh::io::Error>)
    ensures
        r is Ok <==> data@.len() == 99,
        r matches Ok(l) ==> launch_bytes(l.0, l.1, l.2, l.3) == data@,
{
    let (tag, bc, sc, start_price_fp, double_vol, b, bf, s, sf, min_backing_bps): (
        u8, [u8; 32], [u8; 32], u128, u64, u16, u16, u16, u16, u16,
    ) = borsh::BorshDeserialize::try_from_slice(data)?;
    let (buy_fee_creator_bps, buy_fee_floor_bps) = (b, bf);
    let (sell_fee_creator_bps, sell_fee_floor_bps) = (s, sf);
    let cfg = LaunchCfg { start_price_fp, double_vol, buy_fee_creator_bps, buy_fee_floor_bps,
        sell_fee_creator_bps, sell_fee_floor_bps, min_backing_bps };
    Ok((tag, Pubkey { bytes: bc }, Pubkey { bytes: sc }, cfg))
}

/// Calls `borsh::BorshDeserialize::try_from_slice` on a tuple of a trade's
/// fields. Trusted: it reads the fields in order, and fails just where the
/// input is not exactly as long as they are.
#[verifier::external_body]
fn read_trade(data: &[u8]) -> (r: Result<(u8, u64, u64), borsh::io::Error>)
    ensures
        r is Ok <==> data@.len() == 17,
        r matches Ok(t) ==> trade_bytes(t.0, t.1, t.2) == data@,
{
    borsh::BorshDeserialize::try_from_slice(data)
}

/// Calls `borsh::to_vec` on a tuple of a launch's fields. Trusted: it never
/// fails on such a tuple, and writes the fields in order.
#[verifier::external_body]
fn write_launch(tag: u8, bc: &Pubkey, sc: &Pubkey, cfg: &LaunchCfg) -> (r: Vec<u8>)
    ensures
        r@ == launch_bytes(tag, *bc, *sc, *cfg),
{
    let buy = (cfg.buy_fee_creator_bps, cfg.buy_fee_floor_bps);
    let sell = (cfg.sell_fee_creator_bps, cfg.sell_fee_floor_bps);
    let schedule = (cfg.start_price_fp, cfg.double_vol);
    borsh::to_vec(&(tag, bc.bytes, sc.bytes, schedule, buy, sell, cfg.min_backing_bps)).unwrap()
}

/// Calls `borsh::to_vec` on a tuple of a trade's fields. Trusted: it never
/// fails on such a tuple, and writes the fields in order.
#[verifier::external_body]
fn write_trade(tag: u8, amount: u64, min_out: u64) -> (r: Vec<u8>)
    ensures
        r@ == trade_bytes(tag, amount, min_out),
{
    borsh::to_vec(&(tag, amount, min_out)).unwrap()
}

/// The curve that `data` stores, if it stores one.
pub fn parse_curve(data: &[u8]) -> (r: Option<Curve>)
    ensures
        r == stored_curve(data@),
        r is Some <==> data@.len() == CURVE_SIZE,
{
    match read_curve(data) {
        Ok(c) => {
            proof {
                lemma_curve_round_trip(c);
            }
            Some(c)
        },
        Err(_) => {
            proof {
                assert forall|c: Curve| curve_bytes(c) != data@ by {
                    lemma_curve_size(c);
                }
            }
            None
        },
    }
}

/// Writes a curve at the start of `data`.
pub fn store_curve(curve: &Curve, data: &mut [u8]) -> (r: Result<(), ProgramError>)
    ensures
        r == if CURVE_SIZE <= old(data)@.len() {
            Ok::<(), ProgramError>(())
        } else {
            Err(ProgramError::BorshIoError)
        },
        r is Ok ==> final(data)@ == curve_bytes(*curve) + old(data)@.skip(CURVE_SIZE as int),
        r is Err ==> final(data)@ == curve_bytes(*curve).take(old(data)@.len() as int),
{
    match write_curve(curve, data) {
        Ok(_) => Ok(()),
        Err(_) => Err(ProgramError::BorshIoError),
    }
}

/// The bytes that send an instruction.
pub fn encode_instruction(ix: &CurveInstruction) -> (r: Vec<u8>)
    ensures
        r@ == instruction_bytes(*ix),
{
    match *ix {
        CurveInstruction::Initialize {
            buy_creator,
            sell_creator,
            start_price_fp,
            double_vol,
            buy_fee_creator_bps,
            buy_fee_floor_bps,
            sell_fee_creator_bps,
            sell_fee_floor_bps,
            min_backing_bps,
        } => write_launch(
            0,
            &buy_creator,
            &sell_creator,
            &LaunchCfg {
                start_price_fp,
                double_vol,
                buy_fee_creator_bps,
                buy_fee_floor_bps,
                sell_fee_creator_bps,
                sell_fee_floor_bps,
                min_backing_bps,
            },
        ),
        CurveInstruction::Buy { lamports, min_out } => write_trade(1, lamports, min_out),
        CurveInstruction::Sell { units, min_out } => write_trade(2, units, min_out),
    }
}

/// The instruction that `data` sends; an error where it sends none.
pub fn decode_instruction(data: &[u8]) -> (r: Result<CurveInstruction, ProgramError>)
    ensures
        r == match sent_instruction(data@) {
            Some(ix) => Ok::<CurveInstruction, ProgramError>(ix),
            None => Err(ProgramError::BorshIoError),
        },
{
    let ix: Option<CurveInstruction> = if data.len() == 0 {
        None
    } else if data[0] == 0 {
        match read_launch(data) {
            Ok((tag, buy_creator, sell_creator, cfg)) => {
                proof {
                    lemma_launch_len(tag, buy_creator, sell_creator, cfg);
                }
                Some(
                    CurveInstruction::Initialize {
                        buy_creator,
                        sell_creator,
                        start_price_fp: cfg.start_price_fp,
                        double_vol: cfg.double_vol,
                        buy_fee_creator_bps: cfg.buy_fee_creator_bps,
                        buy_fee_floor_bps: cfg.buy_fee_floor_bps,
                        sell_fee_creator_bps: cfg.sell_fee_creator_bps,
                        sell_fee_floor_bps: cfg.sell_fee_floor_bps,
                        min_backing_bps: cfg.min_backing_bps,
                    },
                )
            },
            Err(_) => None,
        }
    } else if data[0] == 1 || data[0] == 2 {
        match read_trade(data) {
            Ok((tag, amount, min_out)) => {
                proof {
                    lemma_trade_len(tag, amount, min_out);
                }
                if tag == 1 {
                    Some(CurveInstruction::Buy { lamports: amount, min_out })
                } else {
                    Some(CurveInstruction::Sell { units: amount, min_out })
                }
            },
            Err(_) => None,
        }
    } else {
        None
    };
    match ix {
        Some(ix) => {
            proof {
                assert(instruction_bytes(ix) == data@);
                lemma_instruction_round_trip(ix);
            }
            Ok(ix)
        },
        None => {
            proof {
                assert forall|c: CurveInstruction| instruction_bytes(c) != data@ by {
                    lemma_instruction_tag(c);
                }
            }
            Err(ProgramError::BorshIoError)
        },
    }
}

} // verus!
