//! Where each value stands in the bytes that are stored, sent and read.
//!
//! A law here speaks of any result that a function's contract allows, and says
//! byte by byte where its parts come from.

use crate::address::{
    ata, curve_pda, payout_pda, try_ata, try_curve_pda, try_payout_pda, PAYOUT_SEED,
};
use crate::bytes::{
    le_bytes, le_value, lemma_byte_powers, lemma_le_bytes_len, lemma_le_round_trip, read_u32,
    read_u64,
};
use crate::error::{ProgramError, E_BAD_MINT, E_BAD_TOKEN_ACCOUNT};
use crate::key::{program_address, Pubkey};
use crate::powers::lemma_pow_step;
use crate::program_ids::{ata_program, token_program};
use crate::state::{
    curve_bytes, decode_instruction, encode_instruction, instruction_bytes,
    lemma_curve_round_trip, lemma_curve_size, lemma_instruction_round_trip, parse_curve,
    sent_instruction, stored_curve, Curve, CurveInstruction, CURVE_SEED,
};
use crate::token::{mint_supply, parse_mint, token_account_mint, token_amount, MintView};
use vstd::arithmetic::power::{lemma_pow0, lemma_pow_positive, pow};
use vstd::prelude::*;

verus! {

/// The number that the `n` bytes of `s` from `at` on write: the byte `i` places
/// on counts `256^i`.
pub open spec fn number_at(s: Seq<u8>, at: int, n: nat) -> nat
    decreases n,
{
    if n == 0 {
        0
    } else {
        let i = (n - 1) as nat;
        number_at(s, at, i) + pow(256, i) as nat * (s[at + i] as nat)
    }
}

/// The `n` bytes of `s` from `at` on.
pub open spec fn bytes_at(s: Seq<u8>, at: int, n: nat) -> Seq<u8> {
    s.subrange(at, at + n)
}

/// One more byte at the end counts by its place.
proof fn lemma_le_value_push(s: Seq<u8>, b: u8)
    ensures
        le_value(s.push(b)) == le_value(s) + pow(256, s.len()) * b,
    decreases s.len(),
{
    let t = s.push(b);
    if s.len() == 0 {
        lemma_pow0(256);
        assert(t.drop_first() =~= Seq::<u8>::empty());
        assert(le_value(t.drop_first()) == 0);
    } else {
        let r = s.drop_first();
        lemma_le_value_push(r, b);
        assert(t.drop_first() =~= r.push(b));
        lemma_pow_step(256, r.len());
        let (p, q) = (pow(256, r.len()), pow(256, s.len()));
        assert(256 * (p * b) == q * b) by (nonlinear_arith)
            requires
                q == 256 * p,
        ;
    }
}

/// A number read byte by byte is the number by places.
pub proof fn lemma_number_at(s: Seq<u8>, at: int, n: nat)
    requires
        0 <= at,
        at + n <= s.len(),
    ensures
        le_value(s.subrange(at, at + n)) == number_at(s, at, n),
    decreases n,
{
    if n == 0 {
        assert(s.subrange(at, at) =~= Seq::<u8>::empty());
    } else {
        let i = (n - 1) as nat;
        lemma_number_at(s, at, i);
        let head = s.subrange(at, at + i);
        lemma_le_value_push(head, s[at + i]);
        assert(s.subrange(at, at + n) =~= head.push(s[at + i]));
        lemma_pow_positive(256, i);
    }
}

/// Numbers by places look at their own bytes alone.
proof fn lemma_number_shift(s: Seq<u8>, at: int, t: Seq<u8>, to: int, n: nat)
    requires
        forall|j: int| 0 <= j < n ==> #[trigger] s[at + j] == t[to + j],
    ensures
        number_at(s, at, n) == number_at(t, to, n),
    decreases n,
{
    if n > 0 {
        let i = (n - 1) as nat;
        lemma_number_shift(s, at, t, to, i);
        assert(s[at + i] == t[to + i]);
    }
}

/// A number that fits is what its bytes write.
pub proof fn lemma_number_of_bytes(v: nat, n: nat)
    requires
        v < pow(256, n),
    ensures
        number_at(le_bytes(v, n), 0, n) == v,
{
    lemma_le_round_trip(v, n);
    lemma_le_bytes_len(v, n);
    lemma_number_at(le_bytes(v, n), 0, n);
    assert(le_bytes(v, n).subrange(0, n as int) =~= le_bytes(v, n));
}

/// A number in the middle of other bytes is read back.
pub proof fn lemma_number_within(s: Seq<u8>, at: int, v: nat, n: nat)
    requires
        0 <= at,
        at + n <= s.len(),
        v < pow(256, n),
        s.subrange(at, at + n) == le_bytes(v, n),
    ensures
        number_at(s, at, n) == v,
{
    lemma_number_of_bytes(v, n);
    let b = le_bytes(v, n);
    assert forall|j: int| 0 <= j < n implies #[trigger] s[at + j] == b[0 + j] by {
        assert(s.subrange(at, at + n)[j] == s[at + j]);
    }
    lemma_number_shift(s, at, b, 0, n);
}

/// Bytes are those of the number that they write.
proof fn lemma_bytes_of_value(s: Seq<u8>)
    ensures
        le_bytes(le_value(s), s.len()) == s,
    decreases s.len(),
{
    if s.len() > 0 {
        let r = s.drop_first();
        lemma_bytes_of_value(r);
        let v = le_value(s);
        assert(v % 256 == s[0] && v / 256 == le_value(r));
        assert(seq![s[0]] + r =~= s);
    } else {
        assert(le_bytes(le_value(s), 0) =~= s);
    }
}

/// Bytes are told by the number at their place.
proof fn lemma_bytes_within(s: Seq<u8>, at: int, v: nat, n: nat)
    requires
        0 <= at,
        at + n <= s.len(),
        number_at(s, at, n) == v,
    ensures
        s.subrange(at, at + n) == le_bytes(v, n),
{
    lemma_number_at(s, at, n);
    lemma_bytes_of_value(s.subrange(at, at + n));
}

// ---------------------------------------------------------------------------
// Integers
// ---------------------------------------------------------------------------

/// Integers are read least significant byte first.
pub proof fn law_integers_are_little_endian(data: &[u8], at: usize, wide: u64, short: u32)
    requires
        at + 8 <= data@.len(),
        call_ensures(read_u64, (data, at), wide),
        call_ensures(read_u32, (data, at), short),
    ensures
        wide == number_at(data@, at as int, 8),
        short == number_at(data@, at as int, 4),
{
    lemma_number_at(data@, at as int, 8);
    lemma_number_at(data@, at as int, 4);
}

// ---------------------------------------------------------------------------
// Curves
// ---------------------------------------------------------------------------

/// The bytes hold the curve: three addresses, price, volume per doubling, five
/// rates, volume and bump, each at its place.
pub open spec fn holds_curve(data: Seq<u8>, c: Curve) -> bool {
    &&& data.len() == 147
    &&& bytes_at(data, 0, 32) == c.mint.bytes@
    &&& bytes_at(data, 32, 32) == c.buy_creator.bytes@
    &&& bytes_at(data, 64, 32) == c.sell_creator.bytes@
    &&& number_at(data, 96, 16) == c.price_fp
    &&& number_at(data, 112, 8) == c.double_vol
    &&& number_at(data, 120, 2) == c.buy_fee_creator_bps
    &&& number_at(data, 122, 2) == c.buy_fee_floor_bps
    &&& number_at(data, 124, 2) == c.sell_fee_creator_bps
    &&& number_at(data, 126, 2) == c.sell_fee_floor_bps
    &&& number_at(data, 128, 2) == c.min_backing_bps
    &&& number_at(data, 130, 16) == c.cum_vol
    &&& data[146] == c.bump
}

/// What is written for a curve holds it.
pub proof fn law_curves_are_laid_out(c: Curve)
    ensures
        holds_curve(curve_bytes(c), c),
{
    let s = curve_bytes(c);
    lemma_curve_size(c);
    lemma_byte_powers();
    lemma_le_bytes_len(c.price_fp as nat, 16);
    lemma_le_bytes_len(c.double_vol as nat, 8);
    lemma_le_bytes_len(c.cum_vol as nat, 16);
    lemma_le_bytes_len(c.buy_fee_creator_bps as nat, 2);
    lemma_le_bytes_len(c.buy_fee_floor_bps as nat, 2);
    lemma_le_bytes_len(c.sell_fee_creator_bps as nat, 2);
    lemma_le_bytes_len(c.sell_fee_floor_bps as nat, 2);
    lemma_le_bytes_len(c.min_backing_bps as nat, 2);
    assert(bytes_at(s, 0, 32) =~= c.mint.bytes@);
    assert(bytes_at(s, 32, 32) =~= c.buy_creator.bytes@);
    assert(bytes_at(s, 64, 32) =~= c.sell_creator.bytes@);
    assert(s.subrange(96, 112) =~= le_bytes(c.price_fp as nat, 16));
    assert(s.subrange(112, 120) =~= le_bytes(c.double_vol as nat, 8));
    assert(s.subrange(120, 122) =~= le_bytes(c.buy_fee_creator_bps as nat, 2));
    assert(s.subrange(122, 124) =~= le_bytes(c.buy_fee_floor_bps as nat, 2));
    assert(s.subrange(124, 126) =~= le_bytes(c.sell_fee_creator_bps as nat, 2));
    assert(s.subrange(126, 128) =~= le_bytes(c.sell_fee_floor_bps as nat, 2));
    assert(s.subrange(128, 130) =~= le_bytes(c.min_backing_bps as nat, 2));
    assert(s.subrange(130, 146) =~= le_bytes(c.cum_vol as nat, 16));
    lemma_number_within(s, 96, c.price_fp as nat, 16);
    lemma_number_within(s, 112, c.double_vol as nat, 8);
    lemma_number_within(s, 120, c.buy_fee_creator_bps as nat, 2);
    lemma_number_within(s, 122, c.buy_fee_floor_bps as nat, 2);
    lemma_number_within(s, 124, c.sell_fee_creator_bps as nat, 2);
    lemma_number_within(s, 126, c.sell_fee_floor_bps as nat, 2);
    lemma_number_within(s, 128, c.min_backing_bps as nat, 2);
    lemma_number_within(s, 130, c.cum_vol as nat, 16);
}

/// A curve that the bytes store is the one they hold.
pub proof fn lemma_stored_curve_held(data: Seq<u8>)
    ensures
        stored_curve(data) matches Some(c) ==> holds_curve(data, c),
{
    if stored_curve(data) is Some {
        let c = stored_curve(data)->0;
        assert(curve_bytes(c) == data);
        law_curves_are_laid_out(c);
    }
}

/// What holds a curve is what is written for it.
pub proof fn lemma_held_is_stored(data: Seq<u8>, c: Curve)
    requires
        holds_curve(data, c),
    ensures
        curve_bytes(c) == data,
        stored_curve(data) == Some(c),
{
    lemma_bytes_within(data, 96, c.price_fp as nat, 16);
    lemma_bytes_within(data, 112, c.double_vol as nat, 8);
    lemma_bytes_within(data, 120, c.buy_fee_creator_bps as nat, 2);
    lemma_bytes_within(data, 122, c.buy_fee_floor_bps as nat, 2);
    lemma_bytes_within(data, 124, c.sell_fee_creator_bps as nat, 2);
    lemma_bytes_within(data, 126, c.sell_fee_floor_bps as nat, 2);
    lemma_bytes_within(data, 128, c.min_backing_bps as nat, 2);
    lemma_bytes_within(data, 130, c.cum_vol as nat, 16);
    let keys = data.subrange(0, 32) + data.subrange(32, 64) + data.subrange(64, 96);
    let rates = data.subrange(120, 122) + data.subrange(122, 124) + data.subrange(124, 126)
        + data.subrange(126, 128) + data.subrange(128, 130);
    assert(data =~= keys + data.subrange(96, 112) + data.subrange(112, 120) + rates
        + data.subrange(130, 146) + seq![data[146]]);
    lemma_curve_round_trip(c);
}

/// A curve is read just where the bytes are as long as one, and it is the one
/// they hold.
pub proof fn law_curves_are_read(data: &[u8], r: Option<Curve>)
    requires
        call_ensures(parse_curve, (data,), r),
    ensures
        r is Some <==> data@.len() == 147,
        forall|c: Curve| r == Some(c) <==> #[trigger] holds_curve(data@, c),
{
    lemma_stored_curve_held(data@);
    assert forall|c: Curve| #[trigger] holds_curve(data@, c) implies r == Some(c) by {
        lemma_held_is_stored(data@, c);
    }
}

// ---------------------------------------------------------------------------
// Instructions
// ---------------------------------------------------------------------------

/// The bytes carry the instruction: a tag, then its fields, each at its place.
pub open spec fn carries(data: Seq<u8>, ix: CurveInstruction) -> bool {
    match ix {
        CurveInstruction::Initialize {
            buy_creator,
            sell_creator,
            start_price_fp,
            double_vol,
            buy_fee_creator_bps,
            buy_fee_floor_bps,
            sell_fee_creator_bps,
            sell_fee_floor_bps,
            min_backing_bps,
        } => {
            &&& data.len() == 99
            &&& data[0] == 0
            &&& bytes_at(data, 1, 32) == buy_creator.bytes@
            &&& bytes_at(data, 33, 32) == sell_creator.bytes@
            &&& number_at(data, 65, 16) == start_price_fp
            &&& number_at(data, 81, 8) == double_vol
            &&& number_at(data, 89, 2) == buy_fee_creator_bps
            &&& number_at(data, 91, 2) == buy_fee_floor_bps
            &&& number_at(data, 93, 2) == sell_fee_creator_bps
            &&& number_at(data, 95, 2) == sell_fee_floor_bps
            &&& number_at(data, 97, 2) == min_backing_bps
        },
        CurveInstruction::Buy { lamports, min_out } => {
            &&& data.len() == 17
            &&& data[0] == 1
            &&& number_at(data, 1, 8) == lamports
            &&& number_at(data, 9, 8) == min_out
        },
        CurveInstruction::Sell { units, min_out } => {
            &&& data.len() == 17
            &&& data[0] == 2
            &&& number_at(data, 1, 8) == units
            &&& number_at(data, 9, 8) == min_out
        },
    }
}

/// What is written for a trade has its amounts at their places.
proof fn lemma_trade_carried(tag: u8, a: u64, b: u64)
    ensures
        ({
            let s = seq![tag] + le_bytes(a as nat, 8) + le_bytes(b as nat, 8);
            &&& s.len() == 17
            &&& s[0] == tag
            &&& number_at(s, 1, 8) == a
            &&& number_at(s, 9, 8) == b
        }),
{
    let s = seq![tag] + le_bytes(a as nat, 8) + le_bytes(b as nat, 8);
    lemma_byte_powers();
    lemma_le_bytes_len(a as nat, 8);
    lemma_le_bytes_len(b as nat, 8);
    assert(s.subrange(1, 9) =~= le_bytes(a as nat, 8));
    assert(s.subrange(9, 17) =~= le_bytes(b as nat, 8));
    lemma_number_within(s, 1, a as nat, 8);
    lemma_number_within(s, 9, b as nat, 8);
}

/// What is written for an instruction carries it.
pub proof fn lemma_instruction_carried(ix: CurveInstruction)
    ensures
        carries(instruction_bytes(ix), ix),
{
    let s = instruction_bytes(ix);
    match ix {
        CurveInstruction::Initialize {
            buy_creator,
            sell_creator,
            start_price_fp,
            double_vol,
            buy_fee_creator_bps,
            buy_fee_floor_bps,
            sell_fee_creator_bps,
            sell_fee_floor_bps,
            min_backing_bps,
        } => {
            lemma_byte_powers();
            lemma_le_bytes_len(start_price_fp as nat, 16);
            lemma_le_bytes_len(double_vol as nat, 8);
            lemma_le_bytes_len(buy_fee_creator_bps as nat, 2);
            lemma_le_bytes_len(buy_fee_floor_bps as nat, 2);
            lemma_le_bytes_len(sell_fee_creator_bps as nat, 2);
            lemma_le_bytes_len(sell_fee_floor_bps as nat, 2);
            lemma_le_bytes_len(min_backing_bps as nat, 2);
            assert(bytes_at(s, 1, 32) =~= buy_creator.bytes@);
            assert(bytes_at(s, 33, 32) =~= sell_creator.bytes@);
            assert(s.subrange(65, 81) =~= le_bytes(start_price_fp as nat, 16));
            assert(s.subrange(81, 89) =~= le_bytes(double_vol as nat, 8));
            assert(s.subrange(89, 91) =~= le_bytes(buy_fee_creator_bps as nat, 2));
            assert(s.subrange(91, 93) =~= le_bytes(buy_fee_floor_bps as nat, 2));
            assert(s.subrange(93, 95) =~= le_bytes(sell_fee_creator_bps as nat, 2));
            assert(s.subrange(95, 97) =~= le_bytes(sell_fee_floor_bps as nat, 2));
            assert(s.subrange(97, 99) =~= le_bytes(min_backing_bps as nat, 2));
            lemma_number_within(s, 65, start_price_fp as nat, 16);
            lemma_number_within(s, 81, double_vol as nat, 8);
            lemma_number_within(s, 89, buy_fee_creator_bps as nat, 2);
            lemma_number_within(s, 91, buy_fee_floor_bps as nat, 2);
            lemma_number_within(s, 93, sell_fee_creator_bps as nat, 2);
            lemma_number_within(s, 95, sell_fee_floor_bps as nat, 2);
            lemma_number_within(s, 97, min_backing_bps as nat, 2);
        },
        CurveInstruction::Buy { lamports, min_out } => lemma_trade_carried(1, lamports, min_out),
        CurveInstruction::Sell { units, min_out } => lemma_trade_carried(2, units, min_out),
    }
}

/// What carries an instruction is what is written for it.
pub proof fn lemma_carried_is_written(data: Seq<u8>, ix: CurveInstruction)
    requires
        carries(data, ix),
    ensures
        instruction_bytes(ix) == data,
{
    match ix {
        CurveInstruction::Initialize {
            start_price_fp,
            double_vol,
            buy_fee_creator_bps,
            buy_fee_floor_bps,
            sell_fee_creator_bps,
            sell_fee_floor_bps,
            min_backing_bps,
            ..
        } => {
            lemma_bytes_within(data, 65, start_price_fp as nat, 16);
            lemma_bytes_within(data, 81, double_vol as nat, 8);
            lemma_bytes_within(data, 89, buy_fee_creator_bps as nat, 2);
            lemma_bytes_within(data, 91, buy_fee_floor_bps as nat, 2);
            lemma_bytes_within(data, 93, sell_fee_creator_bps as nat, 2);
            lemma_bytes_within(data, 95, sell_fee_floor_bps as nat, 2);
            lemma_bytes_within(data, 97, min_backing_bps as nat, 2);
            let keys = data.subrange(0, 1) + data.subrange(1, 33) + data.subrange(33, 65);
            let rates = data.subrange(89, 91) + data.subrange(91, 93) + data.subrange(93, 95)
                + data.subrange(95, 97) + data.subrange(97, 99);
            assert(data.subrange(0, 1) =~= seq![0u8]);
            assert(data =~= keys + data.subrange(65, 81) + data.subrange(81, 89) + rates);
        },
        CurveInstruction::Buy { lamports: a, min_out: b } | CurveInstruction::Sell {
            units: a,
            min_out: b,
        } => {
            lemma_bytes_within(data, 1, a as nat, 8);
            lemma_bytes_within(data, 9, b as nat, 8);
            assert(data =~= seq![data[0]] + data.subrange(1, 9) + data.subrange(9, 17));
        },
    }
}

/// What is encoded carries the instruction, and is decoded to it.
pub proof fn law_instructions_are_sent(
    ix: CurveInstruction,
    bytes: Vec<u8>,
    data: &[u8],
    r: Result<CurveInstruction, ProgramError>,
)
    requires
        call_ensures(encode_instruction, (&ix,), bytes),
        data@ == bytes@,
        call_ensures(decode_instruction, (data,), r),
    ensures
        carries(bytes@, ix),
        r == Ok::<CurveInstruction, ProgramError>(ix),
{
    lemma_instruction_carried(ix);
    lemma_instruction_round_trip(ix);
}

/// A decoded instruction is the one that the bytes carry, and bytes that carry
/// one are decoded.
pub proof fn law_instructions_are_received(data: &[u8], r: Result<CurveInstruction, ProgramError>)
    requires
        call_ensures(decode_instruction, (data,), r),
    ensures
        forall|ix: CurveInstruction|
            r == Ok::<CurveInstruction, ProgramError>(ix) <==> #[trigger] carries(data@, ix),
        r is Err ==> r->Err_0 is BorshIoError,
{
    assert forall|ix: CurveInstruction| #[trigger] carries(data@, ix) implies r == Ok::<
        CurveInstruction,
        ProgramError,
    >(ix) by {
        lemma_carried_is_written(data@, ix);
        lemma_instruction_round_trip(ix);
    }
    if r is Ok {
        let ix = r->Ok_0;
        assert(sent_instruction(data@) == Some(ix));
        assert(instruction_bytes(ix) == data@);
        lemma_instruction_carried(ix);
    }
}

// ---------------------------------------------------------------------------
// SPL accounts
// ---------------------------------------------------------------------------

/// The optional address at `at`: four bytes that read one where it is there, and
/// the address.
pub open spec fn option_at(data: Seq<u8>, at: int, k: Option<Pubkey>) -> bool {
    match k {
        Some(k) => number_at(data, at, 4) == 1 && k.bytes@ == bytes_at(data, at + 4, 32),
        None => number_at(data, at, 4) != 1,
    }
}

/// A mint is read just where the bytes are long enough, and every part comes
/// from its place: authority, supply, decimals, whether it is initialized, and
/// freeze authority.
pub proof fn law_mints_are_read(data: &[u8], r: Result<MintView, ProgramError>)
    requires
        call_ensures(parse_mint, (data,), r),
    ensures
        r is Ok <==> data@.len() >= 82,
        r matches Err(e) ==> e == ProgramError::Custom(E_BAD_MINT),
        r matches Ok(m) ==> {
            &&& option_at(data@, 0, m.authority)
            &&& m.supply == number_at(data@, 36, 8)
            &&& m.decimals == data@[44]
            &&& m.initialized <==> data@[45] == 1
            &&& option_at(data@, 46, m.freeze_authority)
        },
{
    if data@.len() >= 82 {
        lemma_number_at(data@, 0, 4);
        lemma_number_at(data@, 36, 8);
        lemma_number_at(data@, 46, 4);
    }
}

/// What is read of SPL accounts comes from its place; what is too short reads
/// as nothing, or is refused.
pub proof fn law_token_accounts_are_read(
    data: &[u8],
    supply: u64,
    amount: u64,
    mint: Result<Pubkey, ProgramError>,
)
    requires
        call_ensures(mint_supply, (data,), supply),
        call_ensures(token_amount, (data,), amount),
        call_ensures(token_account_mint, (data,), mint),
    ensures
        data@.len() >= 44 ==> supply == number_at(data@, 36, 8),
        data@.len() < 44 ==> supply == 0,
        data@.len() >= 72 ==> amount == number_at(data@, 64, 8),
        data@.len() < 72 ==> amount == 0,
        mint is Ok <==> data@.len() >= 72,
        mint matches Ok(k) ==> k.bytes@ == bytes_at(data@, 0, 32),
        mint matches Err(e) ==> e == ProgramError::Custom(E_BAD_TOKEN_ACCOUNT),
{
    if data@.len() >= 44 {
        lemma_number_at(data@, 36, 8);
    }
    if data@.len() >= 72 {
        lemma_number_at(data@, 64, 8);
    }
}

// ---------------------------------------------------------------------------
// Addresses
// ---------------------------------------------------------------------------

/// The ASCII bytes of `curve`.
pub open spec fn curve_word() -> Seq<u8> {
    seq![0x63u8, 0x75u8, 0x72u8, 0x76u8, 0x65u8]
}

/// The ASCII bytes of `payout`.
pub open spec fn payout_word() -> Seq<u8> {
    seq![0x70u8, 0x61u8, 0x79u8, 0x6fu8, 0x75u8, 0x74u8]
}

/// A curve's address is what its program derives from the word `curve` and the
/// mint.
pub proof fn law_curve_addresses_are_derived(
    program_id: &Pubkey,
    mint: &Pubkey,
    found: (Pubkey, u8),
    tried: Option<(Pubkey, u8)>,
)
    requires
        call_ensures(curve_pda, (program_id, mint), found),
        call_ensures(try_curve_pda, (program_id, mint), tried),
    ensures
        ({
            let derived = program_address(seq![curve_word(), mint.bytes@], program_id.bytes@);
            &&& derived == Some((found.0.bytes@, found.1))
            &&& tried is Some <==> derived is Some
            &&& tried matches Some((k, bump)) ==> derived == Some((k.bytes@, bump))
        }),
{
    assert(CURVE_SEED@ =~= curve_word());
}

/// A token account's address is what the associated token account program
/// derives from owner, Token program and mint, in this order.
pub proof fn law_token_account_addresses_are_derived(
    owner: &Pubkey,
    mint: &Pubkey,
    token: Pubkey,
    associated: Pubkey,
    found: Pubkey,
    tried: Option<Pubkey>,
)
    requires
        call_ensures(token_program, (), token),
        call_ensures(ata_program, (), associated),
        call_ensures(ata, (owner, mint), found),
        call_ensures(try_ata, (owner, mint), tried),
    ensures
        ({
            let derived = program_address(
                seq![owner.bytes@, token.bytes@, mint.bytes@],
                associated.bytes@,
            );
            &&& found.bytes@ == (derived->0).0
            &&& tried is Some <==> derived is Some
            &&& tried matches Some(k) ==> k.bytes@ == (derived->0).0
        }),
{
}

/// A payout account's address is what its program derives from the word
/// `payout`.
pub proof fn law_payout_addresses_are_derived(
    program_id: &Pubkey,
    found: Pubkey,
    tried: Option<Pubkey>,
)
    requires
        call_ensures(payout_pda, (program_id,), found),
        call_ensures(try_payout_pda, (program_id,), tried),
    ensures
        ({
            let derived = program_address(seq![payout_word()], program_id.bytes@);
            &&& found.bytes@ == (derived->0).0
            &&& tried is Some <==> derived is Some
            &&& tried matches Some(k) ==> k.bytes@ == (derived->0).0
        }),
{
    assert(PAYOUT_SEED@ =~= payout_word());
}

} // verus!
