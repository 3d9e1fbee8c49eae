//! What holds of every buy on the chunked schedule.

use crate::market::{
    floor_price, governor_price, lemma_at_most_quotient, lemma_floor_price_le, lemma_gross,
    lemma_quotient, lemma_two_shares, sell_gross,
};
use crate::powers::{lemma_mul_le, lemma_pow_le, lemma_pow_step, lemma_square_value};
use crate::quote_laws::{
    divides_sell, is_quotient, is_share, lemma_is_share, lemma_one_quotient,
};
use crate::schedule::{
    chunk_size, expected_buy, expected_buy_fits, expected_sell, price_cap, ratio_ok, reference,
    reference_cfg, run_start, try_expected_buy, Run, LN2_FP,
};
use crate::state::{Curve, LaunchCfg, E18};
use vstd::arithmetic::power::{
    lemma_pow1, lemma_pow_distributes, lemma_pow_multiplies, lemma_pow_positive, pow,
};
use vstd::arithmetic::power2::{lemma2_to64_rest, lemma_pow2};
use vstd::prelude::*;

verus! {

/// A chunk mints above the floor and rounds down, so that the floor does not
/// fall: `vault * supply' <= vault' * supply`.
proof fn lemma_step_keeps_floor(run: Run, s0: nat)
    requires
        s0 + run.out > 0,
        run.mint_price(s0) > 0,
    ensures
        run.vault * (s0 + run.step(s0).out) <= run.step(s0).vault * (s0 + run.out),
{
    let (v, s, c, e) = (run.vault, s0 + run.out, run.chunk(), E18 as nat);
    let nav = run.nav(s0);
    let pe = run.mint_price(s0);
    let minted = c * e / pe;
    lemma_quotient(v * e, s);
    lemma_quotient(c * e, pe);
    assert(nav + 1 <= pe);
    // minted * v * e <= minted * pe * s <= c * e * s
    assert(minted * v <= c * s) by {
        assert(v * e <= pe * s) by (nonlinear_arith)
            requires
                v * e < (nav + 1) * s,
                nav + 1 <= pe,
        ;
        assert(minted * (v * e) <= minted * (pe * s)) by (nonlinear_arith)
            requires
                v * e <= pe * s,
        ;
        assert(minted * (pe * s) == minted * pe * s) by (nonlinear_arith);
        assert(minted * pe * s <= c * e * s) by (nonlinear_arith)
            requires
                minted * pe <= c * e,
        ;
        let (x, y) = (minted * v, c * s);
        assert(minted * (v * e) == x * e) by (nonlinear_arith)
            requires
                x == minted * v,
        ;
        assert(c * e * s == y * e) by (nonlinear_arith)
            requires
                y == c * s,
        ;
        assert(x <= y) by (nonlinear_arith)
            requires
                x * e <= y * e,
                e > 0,
        ;
    }
    assert(v * (s + minted) <= (v + c) * s) by (nonlinear_arith)
        requires
            minted * v <= c * s,
    ;
    assert(s0 + run.step(s0).out == s + minted);
}

/// The floor does not fall over all chunks.
proof fn lemma_run_keeps_floor(run: Run, s0: nat)
    requires
        s0 + run.out > 0,
        run.fits(s0),
    ensures
        run.out <= run.end(s0).out,
        run.vault <= run.end(s0).vault,
        run.end(s0).vault == run.vault + run.remaining,
        run.vault * (s0 + run.end(s0).out) <= run.end(s0).vault * (s0 + run.out),
    decreases run.remaining,
{
    if run.remaining > 0 {
        let next = run.step(s0);
        let last = run.end(s0);
        lemma_step_keeps_floor(run, s0);
        lemma_run_keeps_floor(next, s0);
        let (v, s, w, t, x, u) = (
            run.vault,
            s0 + run.out,
            next.vault,
            s0 + next.out,
            last.vault,
            s0 + last.out,
        );
        // v * t <= w * s and w * u <= x * t give v * u <= x * s.
        assert(v * u * t <= w * u * s) by (nonlinear_arith)
            requires
                v * t <= w * s,
        ;
        assert(w * u * s <= x * t * s) by (nonlinear_arith)
            requires
                w * u <= x * t,
        ;
        assert(x * t * s == x * s * t) by (nonlinear_arith);
        assert(v * u <= x * s) by (nonlinear_arith)
            requires
                v * u * t <= x * s * t,
                t > 0,
        ;
    } else {
        assert(run.vault * (s0 + run.out) <= run.vault * (s0 + run.out));
    }
}

/// A scheduled buy never lowers the floor: with `v_pre` lamports and `s0` units
/// before and the vault and supply of the end state after,
/// `v_pre * (s0 + out) <= vault * s0`.
pub proof fn law_scheduled_buy_keeps_floor(price_fp: u128, lamports: u64, v_pre: u128, s0: u128)
    requires
        s0 > 0,
        expected_buy_fits(price_fp, lamports, v_pre, s0),
    ensures
        ({
            let end = run_start(price_fp, lamports, v_pre).end(s0 as nat);
            &&& end.vault == v_pre + lamports - lamports / 100
            &&& v_pre * (s0 + end.out) <= end.vault * s0
        }),
{
    let start = run_start(price_fp, lamports, v_pre);
    let end = start.end(s0 as nat);
    lemma_run_keeps_floor(start, s0 as nat);
    assert(lamports as nat * 100 / 10_000 == lamports / 100);
    let (v, w, u) = (v_pre as int, start.vault as int, s0 + end.out);
    assert(v * u <= w * u) by (nonlinear_arith)
        requires
            v <= w,
            u >= 0,
    ;
}

/// A higher floor does not lower the cap.
proof fn lemma_price_cap_le(a: nat, b: nat)
    requires
        a <= b,
    ensures
        price_cap(a) <= price_cap(b),
{
    if a * 10_000 > u128::MAX {
        assert(b * 10_000 > u128::MAX);
    }
}

/// Over all chunks the price never falls, and it passes the price before only
/// up to the cap at the floor of the end state.
proof fn lemma_run_price(run: Run, s0: nat)
    requires
        s0 + run.out > 0,
        run.fits(s0),
    ensures
        run.price <= run.end(s0).price,
        run.end(s0).price <= run.price || run.end(s0).price <= price_cap(run.end(s0).nav(s0)),
    decreases run.remaining,
{
    if run.remaining > 0 {
        let next = run.step(s0);
        let last = run.end(s0);
        lemma_run_price(next, s0);
        lemma_run_keeps_floor(run, s0);
        lemma_floor_price_le(run.vault, s0 + run.out, last.vault, s0 + last.out);
        lemma_price_cap_le(run.nav(s0), last.nav(s0));
        assert(next.price <= run.price || next.price <= price_cap(run.nav(s0)));
    }
}

/// No chunk lowers the price, and none raises it by more than a part in 46.
proof fn lemma_step_price(run: Run, s0: nat)
    ensures
        run.price <= run.next_price(s0),
        46 * run.next_price(s0) <= 47 * run.price,
{
    let (p, c) = (run.price, run.chunk());
    let g = LN2_FP as nat * c / (reference().double_vol as nat);
    assert(g <= 21_660_849);
    assert(p * g <= 21_660_849 * p) by (nonlinear_arith)
        requires
            g <= 21_660_849,
    ;
}

/// The price never falls over all chunks.
proof fn lemma_run_price_rises(run: Run, s0: nat)
    ensures
        run.price <= run.end(s0).price,
    decreases run.remaining,
{
    if run.remaining > 0 {
        lemma_step_price(run, s0);
        lemma_run_price_rises(run.step(s0), s0);
    }
}

/// The price grows by at most `(47/46)^k` over `k` chunks.
proof fn lemma_run_price_growth(run: Run, s0: nat, k: nat)
    requires
        run.remaining <= k * chunk_size(),
    ensures
        run.end(s0).price * pow(46, k) <= run.price * pow(47, k),
    decreases k,
{
    let last = run.end(s0).price as int;
    assert(chunk_size() == 781_250_000);
    if run.remaining == 0 {
        lemma_pow_le(46, 47, k);
        lemma_mul_le(last, last, pow(46, k), pow(47, k));
    } else {
        let j = (k - 1) as nat;
        let next = run.step(s0);
        lemma_step_price(run, s0);
        lemma_run_price_growth(next, s0, j);
        lemma_pow_step(46, j);
        lemma_pow_step(47, j);
        lemma_pow_positive(47, j);
        let (p, q, a, b) = (run.price as int, next.price as int, pow(46, j), pow(47, j));
        assert(last * (46 * a) <= p * (47 * b)) by (nonlinear_arith)
            requires
                last * a <= q * b,
                46 * q <= 47 * p,
                0 < b,
        {
            assert(46 * (last * a) <= 46 * (q * b));
            assert((46 * q) * b <= (47 * p) * b);
        }
    }
}

/// `47^32 <= 2 * 46^32`.
proof fn lemma_chunks_double()
    ensures
        0 < pow(47, 32) <= 2 * pow(46, 32),
{
    lemma_pow1(46);
    lemma_square_value(46, 1, 46);
    lemma_square_value(46, 2, 2116);
    lemma_square_value(46, 4, 4477456);
    lemma_square_value(46, 8, 20047612231936);
    lemma_square_value(46, 16, 401906756202069927458308096);
    lemma_pow1(47);
    lemma_square_value(47, 1, 47);
    lemma_square_value(47, 2, 2209);
    lemma_square_value(47, 4, 4879681);
    lemma_square_value(47, 8, 23811286661761);
    lemma_square_value(47, 16, 566977372488557307219621121);
}

/// Over at most `1248` chunks the price grows by less than `2^39`.
proof fn lemma_run_price_bound(run: Run, s0: nat)
    requires
        run.remaining <= 1_248 * chunk_size(),
    ensures
        run.end(s0).price <= 549_755_813_888 * run.price,
{
    lemma_run_price_growth(run, s0, 1_248);
    lemma_chunks_double();
    lemma_pow_multiplies(47, 32, 39);
    lemma_pow_multiplies(46, 32, 39);
    lemma_pow_le(pow(47, 32), 2 * pow(46, 32), 39);
    lemma_pow_distributes(2, pow(46, 32), 39);
    lemma_pow2(39);
    lemma2_to64_rest();
    lemma_pow_positive(46, 1_248);
    let (a, b, p, q) = (pow(46, 1_248), pow(47, 1_248), run.price as int, run.end(s0).price as int);
    assert(q <= 549_755_813_888 * p) by (nonlinear_arith)
        requires
            q * a <= p * b,
            b <= 549_755_813_888 * a,
            0 < a,
            0 <= p,
    {
        assert(p * b <= p * (549_755_813_888 * a));
        assert(q * a <= (549_755_813_888 * p) * a);
    }
}

/// A scheduled buy never lowers the price, and a buy of nothing changes
/// nothing.
pub proof fn law_scheduled_price_never_falls(price_fp: u128, lamports: u64, v_pre: u128, s0: u128)
    ensures
        price_fp <= run_start(price_fp, lamports, v_pre).end(s0 as nat).price,
        lamports == 0 ==> ({
            let end = run_start(price_fp, lamports, v_pre).end(s0 as nat);
            end.price == price_fp && end.out == 0
        }),
{
    lemma_run_price_rises(run_start(price_fp, lamports, v_pre), s0 as nat);
}

/// The first chunk of an empty market leaves a price that its floor allows.
proof fn lemma_first_chunk_price(start: Run)
    requires
        start.out == 0,
        start.remaining > 0,
        start.fits(0),
        start.step(0).out > 0,
    ensures
        start.step(0).price <= start.price || start.step(0).price <= price_cap(
            start.step(0).nav(0),
        ),
{
    let next = start.step(0);
    let (c, e) = (start.chunk(), E18 as nat);
    let middle = start.mint_price(0);
    lemma_step_price(start, 0);
    lemma_quotient(c * e, middle);
    assert(next.out * middle <= next.vault * e) by (nonlinear_arith)
        requires
            next.out * middle <= c * e,
            c <= next.vault,
    ;
    assert(middle * next.out <= next.vault * e) by (nonlinear_arith)
        requires
            next.out * middle <= next.vault * e,
    ;
    lemma_at_most_quotient(middle, next.vault * e, next.out);
    assert(middle <= next.nav(0));
}

/// A scheduled buy passes the price before it only up to the governor's price
/// at the floor of the end state.
///
/// Left out: an empty market whose first chunk mints nothing. It has no floor to
/// hold the price against.
///
/// Where ten thousand times the floor does not fit, the schedule has no cap. A
/// price that starts at `10^18` or below does not come near such a floor with
/// `10^12` lamports or fewer.
pub proof fn law_scheduled_price_is_governed(price_fp: u128, lamports: u64, v_pre: u128, s0: u128)
    requires
        s0 + run_start(price_fp, lamports, v_pre).step(s0 as nat).out > 0,
        expected_buy_fits(price_fp, lamports, v_pre, s0),
    ensures
        ({
            let end = run_start(price_fp, lamports, v_pre).end(s0 as nat);
            let (vault, supply) = (end.vault, s0 as nat + end.out);
            &&& end.price <= price_fp || end.price <= price_cap(floor_price(vault, supply))
            &&& lamports <= 1_000_000_000_000 && price_fp <= 1_000_000_000_000_000_000
                ==> end.price <= price_fp || end.price <= governor_price(
                vault,
                supply,
                reference().min_backing_bps,
            )
        }),
{
    let start = run_start(price_fp, lamports, v_pre);
    if s0 > 0 {
        lemma_run_price(start, s0 as nat);
    } else if start.remaining > 0 {
        let next = start.step(0);
        let last = start.end(0);
        lemma_first_chunk_price(start);
        lemma_run_price(next, 0);
        lemma_run_keeps_floor(next, 0);
        lemma_floor_price_le(next.vault, next.out, last.vault, last.out);
        lemma_price_cap_le(next.nav(0), last.nav(0));
    }
    if lamports <= 1_000_000_000_000 && price_fp <= 1_000_000_000_000_000_000 {
        assert(lamports as nat * 100 / 10_000 == lamports / 100);
        assert(start.remaining <= 1_248 * chunk_size());
        lemma_run_price_bound(start, s0 as nat);
    }
}

// ---------------------------------------------------------------------------
// Chunk by chunk
// ---------------------------------------------------------------------------

/// The numbers of one chunk of a scheduled buy.
pub struct Chunk {
    /// The lamports that it spends.
    pub lamports: int,
    /// What it adds to a price of one, scaled by `10^9`.
    pub growth: int,
    /// What it adds to the price, without the governor.
    pub rise: int,
    /// The floor before it, if there is a supply.
    pub nav: int,
    /// The highest price that the governor allows at that floor.
    pub cap: int,
    /// The price after it.
    pub price: int,
    /// The price at which it mints.
    pub minting: int,
    /// The units that it mints.
    pub minted: int,
}

/// The chunk is the next one of a buy, told by what its numbers satisfy.
///
/// It spends what is left, up to the 32nd part of 25 SOL. The price rises by
/// `ln 2` per 25 SOL, not past the governor's price at a backing of 93.5%, and
/// never falls. It mints at the middle of the prices before and after, or else
/// just above the floor.
pub open spec fn is_next_chunk(run: Run, s0: nat, n: Chunk) -> bool {
    let supply = s0 + run.out;
    let middle = (run.price + n.price) / 2;
    let raised = run.price + n.rise;
    &&& n.lamports == if run.remaining < 781_250_000 {
        run.remaining as int
    } else {
        781_250_000
    }
    &&& is_quotient(n.growth, 693_147_181 * n.lamports, 25_000_000_000)
    &&& is_quotient(n.rise, run.price * n.growth, 1_000_000_000)
    &&& supply > 0 ==> is_quotient(
        n.nav,
        run.vault as int * 1_000_000_000_000_000_000,
        supply as int,
    )
    &&& if n.nav * 10_000 > u128::MAX {
        n.cap == u128::MAX
    } else {
        is_quotient(n.cap, n.nav * 10_000, 9_350)
    }
    &&& run.price <= n.price <= raised
    &&& supply == 0 ==> n.price == raised
    &&& supply > 0 && n.price < raised ==> n.price == n.cap || (n.price == run.price && n.cap
        < run.price)
    &&& supply > 0 && n.price > run.price ==> n.price <= n.cap
    &&& n.minting == if supply > 0 && middle <= n.nav {
        n.nav + n.nav / 10_000 + 1
    } else {
        middle
    }
    &&& is_quotient(n.minted, n.lamports * 1_000_000_000_000_000_000, n.minting)
}

/// A buy after a chunk.
pub open spec fn after_chunk(run: Run, n: Chunk) -> Run {
    Run {
        remaining: (run.remaining - n.lamports) as nat,
        vault: (run.vault + n.lamports) as nat,
        price: n.price as nat,
        out: (run.out + n.minted) as nat,
    }
}

/// The next chunk is the step of the model.
proof fn lemma_next_chunk(run: Run, s0: nat, n: Chunk)
    requires
        run.remaining > 0,
        is_next_chunk(run, s0, n),
    ensures
        after_chunk(run, n) == run.step(s0),
{
    let supply = s0 + run.out;
    let c = run.chunk();
    assert(chunk_size() == 781_250_000);
    assert(n.lamports == c);
    lemma_one_quotient(n.growth, 693_147_181 * n.lamports, 25_000_000_000);
    lemma_one_quotient(n.rise, run.price * n.growth, 1_000_000_000);
    assert(run.price * n.growth == run.rise());
    assert(run.price + n.rise == run.raised());
    if supply > 0 {
        let e: int = 1_000_000_000_000_000_000;
        lemma_one_quotient(n.nav, run.vault * e, supply as int);
        assert(run.vault * (E18 as nat) == run.vault * e);
        assert(n.nav == run.nav(s0));
        if n.nav * 10_000 <= u128::MAX {
            lemma_one_quotient(n.cap, n.nav * 10_000, 9_350);
        }
        assert(n.cap == price_cap(run.nav(s0)));
    }
    assert(n.price == run.next_price(s0));
    assert(n.minting == run.mint_price(s0));
    let a: int = n.lamports * 1_000_000_000_000_000_000;
    assert(n.minting > 0) by (nonlinear_arith)
        requires
            is_quotient(n.minted, a, n.minting),
            n.minting >= 0,
    ;
    lemma_one_quotient(n.minted, a, n.minting);
    assert(n.minted >= 0) by (nonlinear_arith)
        requires
            n.minted == a / n.minting,
            a >= 0,
            n.minting > 0,
    ;
}

/// The chunks lead from one state of a buy to the next, until nothing is left.
pub open spec fn walks(runs: Seq<Run>, s0: nat, chunks: Seq<Chunk>) -> bool {
    &&& runs.len() == chunks.len() + 1
    &&& forall|i: int|
        0 <= i < chunks.len() ==> {
            &&& runs[i].remaining > 0
            &&& is_next_chunk(runs[i], s0, #[trigger] chunks[i])
            &&& runs[i + 1] == after_chunk(runs[i], chunks[i])
        }
    &&& runs.last().remaining == 0
}

/// A walk ends where the model does.
proof fn lemma_walk_ends(runs: Seq<Run>, s0: nat, chunks: Seq<Chunk>, i: int)
    requires
        walks(runs, s0, chunks),
        0 <= i < runs.len(),
    ensures
        runs[i].end(s0) == runs.last(),
    decreases runs.len() - i,
{
    if i < chunks.len() {
        assert(is_next_chunk(runs[i], s0, chunks[i]));
        lemma_next_chunk(runs[i], s0, chunks[i]);
        lemma_walk_ends(runs, s0, chunks, i + 1);
    }
}

/// A scheduled buy takes 1% for the creator, donates 2%, and spends the rest
/// chunk by chunk: its price and its units are those that the walk ends with.
pub proof fn law_scheduled_buys_walk_the_chunks(
    price_fp: u128,
    lamports: u64,
    v_pre: u128,
    s0: u128,
    fee: int,
    donation: int,
    runs: Seq<Run>,
    chunks: Seq<Chunk>,
    r: (u128, u128),
)
    requires
        is_share(fee, lamports as int, 100),
        is_share(donation, lamports as int, 200),
        walks(runs, s0 as nat, chunks),
        runs[0].remaining == lamports - fee - donation,
        runs[0].vault == v_pre + donation,
        runs[0].price == price_fp,
        runs[0].out == 0,
        call_ensures(expected_buy, (price_fp, lamports, v_pre, s0), r) || call_ensures(
            try_expected_buy,
            (price_fp, lamports, v_pre, s0),
            Some(r),
        ),
    ensures
        r.0 == runs.last().price,
        r.1 == runs.last().out,
{
    lemma_is_share(lamports as nat, 100);
    lemma_is_share(lamports as nat, 200);
    assert(runs[0] == run_start(price_fp, lamports, v_pre));
    lemma_walk_ends(runs, s0 as nat, chunks, 0);
}

/// The numbers of a chunk fit 128 bits.
pub open spec fn chunk_fits(run: Run, s0: nat, n: Chunk) -> bool {
    &&& run.price * n.growth <= u128::MAX
    &&& run.price + n.rise <= u128::MAX
    &&& s0 + run.out <= u128::MAX
    &&& s0 + run.out > 0 ==> run.vault * 1_000_000_000_000_000_000 <= u128::MAX
    &&& run.price + n.price <= u128::MAX
    &&& n.minting <= u128::MAX
    &&& run.out + n.minted <= u128::MAX
    &&& run.vault + n.lamports <= u128::MAX
}

/// A walk fits in the model where its chunks do.
proof fn lemma_walk_fits(runs: Seq<Run>, s0: nat, chunks: Seq<Chunk>, i: int)
    requires
        walks(runs, s0, chunks),
        0 <= i < runs.len(),
    ensures
        runs[i].fits(s0) <==> forall|j: int|
            i <= j < chunks.len() ==> chunk_fits(runs[j], s0, #[trigger] chunks[j]),
    decreases runs.len() - i,
{
    if i < chunks.len() {
        let (run, n) = (runs[i], chunks[i]);
        assert(is_next_chunk(run, s0, n));
        lemma_next_chunk(run, s0, n);
        lemma_chunk_fits(run, s0, n);
        lemma_walk_fits(runs, s0, chunks, i + 1);
    }
}

/// A chunk fits in the model where its numbers do.
proof fn lemma_chunk_fits(run: Run, s0: nat, n: Chunk)
    requires
        run.remaining > 0,
        is_next_chunk(run, s0, n),
    ensures
        run.step_fits(s0) <==> chunk_fits(run, s0, n),
{
    lemma_next_chunk(run, s0, n);
    lemma_one_quotient(n.growth, 693_147_181 * n.lamports, 25_000_000_000);
    assert(chunk_size() == 781_250_000);
    lemma_one_quotient(n.rise, run.price * n.growth, 1_000_000_000);
    assert(run.price * n.growth == run.rise());
    assert(run.vault * (E18 as nat) == run.vault * 1_000_000_000_000_000_000);
    if s0 + run.out > 0 {
        lemma_one_quotient(
            n.nav,
            run.vault as int * 1_000_000_000_000_000_000,
            (s0 + run.out) as int,
        );
    }
    let a: int = n.lamports * 1_000_000_000_000_000_000;
    assert(n.nav >= 0 || s0 + run.out == 0);
    assert(n.minting == run.mint_price(s0));
    assert(n.minting > 0) by (nonlinear_arith)
        requires
            is_quotient(n.minted, a, n.minting),
            n.minting >= 0,
    ;
    lemma_one_quotient(n.minted, a, n.minting);
}

/// A scheduled buy is computed just where all numbers of its walk fit.
pub proof fn law_scheduled_buys_need_room(
    price_fp: u128,
    lamports: u64,
    v_pre: u128,
    s0: u128,
    fee: int,
    donation: int,
    runs: Seq<Run>,
    chunks: Seq<Chunk>,
    r: Option<(u128, u128)>,
)
    requires
        is_share(fee, lamports as int, 100),
        is_share(donation, lamports as int, 200),
        walks(runs, s0 as nat, chunks),
        runs[0].remaining == lamports - fee - donation,
        runs[0].vault == v_pre + donation,
        runs[0].price == price_fp,
        runs[0].out == 0,
        call_ensures(try_expected_buy, (price_fp, lamports, v_pre, s0), r),
    ensures
        r is Some <==> v_pre + donation <= u128::MAX && forall|j: int|
            0 <= j < chunks.len() ==> chunk_fits(runs[j], s0 as nat, #[trigger] chunks[j]),
{
    lemma_is_share(lamports as nat, 100);
    lemma_is_share(lamports as nat, 200);
    assert(runs[0] == run_start(price_fp, lamports, v_pre));
    lemma_walk_fits(runs, s0 as nat, chunks, 0);
}

// ---------------------------------------------------------------------------
// The suite's other figures
// ---------------------------------------------------------------------------

/// The reference launch is at one SOL per token, doubles per 25 SOL, takes 1%
/// and 2% of buys and 1% and 5% of sells, and backs 93.5%.
pub proof fn law_reference_launch(r: LaunchCfg)
    requires
        call_ensures(reference_cfg, (), r),
    ensures
        r.start_price_fp == 1_000_000_000_000_000_000,
        r.double_vol == 25_000_000_000,
        r.buy_fee_creator_bps == 100,
        r.buy_fee_floor_bps == 200,
        r.sell_fee_creator_bps == 100,
        r.sell_fee_floor_bps == 500,
        r.min_backing_bps == 9_350,
{
}

/// A sell is expected to be divided as a curve with the reference fees divides
/// it: 1% to the creator, and 5% kept unless the last units leave.
pub proof fn law_expected_sells_are_divided(
    units: u64,
    v: u128,
    supply: u64,
    curve: Curve,
    to_seller: int,
    fee: int,
    kept: int,
    r: (u64, u64, u64),
)
    requires
        0 < supply,
        units <= supply,
        v <= u64::MAX,
        curve.sell_fee_creator_bps == 100,
        curve.sell_fee_floor_bps == 500,
        divides_sell(curve, v as int, supply as int, units as int, to_seller, fee, kept),
        call_ensures(expected_sell, (units, v, supply), r),
    ensures
        r.0 == to_seller,
        r.1 == to_seller + fee,
        r.2 == fee,
{
    let (vault, s, u) = (v as nat, supply as nat, units as nat);
    let g = sell_gross(vault, s, u);
    lemma_gross(vault, s, u);
    lemma_one_quotient(to_seller + fee + kept, units * v, supply as int);
    assert(u * vault == units * v);
    lemma_is_share(g, 100);
    lemma_is_share(g, 500);
    lemma_two_shares(g, 100, 500);
}

/// The ratio is in order where there is no supply, and else where 93.5% of the
/// price is at most the floor, or past it by no more than a millionth.
pub proof fn law_ratio_is_checked(price_fp: u128, vault: u64, supply: u64, nav: int, r: bool)
    requires
        supply > 0 ==> is_quotient(nav, vault * 1_000_000_000_000_000_000, supply as int),
        call_ensures(ratio_ok, (price_fp, vault, supply), r),
    ensures
        r <==> supply == 0 || price_fp * 9_350 <= nav * 10_000 + nav / 100,
{
    if supply > 0 {
        let a: int = vault * 1_000_000_000_000_000_000;
        lemma_one_quotient(nav, a, supply as int);
        assert(vault as nat * (E18 as nat) == a);
    }
}

} // verus!
