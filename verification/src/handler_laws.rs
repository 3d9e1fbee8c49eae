//! What the on-chain program decides, told by what its answers have to satisfy.
//!
//! A law here speaks of any answer that a handler's contract allows. It tells
//! the answer by the accounts' bytes and by what the calls in it do.

use crate::codec_laws::{
    bytes_at, carries, curve_word, holds_curve, lemma_carried_is_written, lemma_held_is_stored,
    lemma_instruction_carried, lemma_number_at, lemma_stored_curve_held, number_at,
};
use crate::error::{
    err, ProgramError, E_ALREADY_INIT, E_BAD_CREATOR, E_BAD_MINT, E_BAD_PARAMS, E_BAD_PDA,
    E_BAD_TOKEN_ACCOUNT, E_BUY_TOO_LARGE, E_CURVE_SATURATED, E_INSUFFICIENT_VAULT, E_OVERFLOW,
    E_SLIPPAGE, E_ZERO_AMOUNT,
};
use crate::instruction::Instruction;
use crate::key::{program_address, seed_bytes, Pubkey};
use crate::laws::Market;
use crate::ledger::{
    after_calls, credited, debited, is_authorized, is_burn, is_create_account, is_mint_to,
    is_transfer, lemma_allocate_read, lemma_assign_read, lemma_burn_read,
    lemma_create_account_read, lemma_mint_to_read, lemma_system_key, lemma_transfer_read,
    system_key, Slot,
};
use crate::market::{lemma_gross, lemma_two_shares, quote_buy, sell_gross, share};
use crate::program::{
    buy, buy_at, buy_outcome, buy_transfers, cpi_views, finish_sell, initialize, initialize_at,
    initialize_cpis, initialize_outcome, instruction_outcome, is_buy, is_initialize, is_pending,
    is_sell, launch_cfg, launch_outcome, load_curve, load_curve_at, process_instruction, sell,
    sell_at, sell_outcome, settle_buy, signer_seeds, stored_address, trade_curve,
    try_process_instruction, Account, BuyOrder, BuySettlement, Cpi, InitializePlan, Pending,
    SellOrder,
};
use crate::program_ids::TOKEN_PROGRAM;
use crate::quote_laws::{
    divides_sell, is_share, lemma_is_quotient, lemma_is_share, lemma_one_quotient,
};
use crate::state::{
    instruction_bytes, lemma_instruction_round_trip, sent_instruction, Curve, CurveInstruction,
    LaunchCfg, CURVE_SEED,
};
use crate::token::{spl_burn, spl_mint_to};
use vstd::prelude::*;

verus! {

/// The answer is this refusal.
pub open spec fn refuses<T>(r: Result<T, ProgramError>, e: ProgramError) -> bool {
    r is Err && r->Err_0 == e
}

/// The answer is the refusal with this code.
pub open spec fn refuses_with<T>(r: Result<T, ProgramError>, code: u32) -> bool {
    refuses(r, ProgramError::Custom(code))
}

/// The lamports of an account above its rent.
pub open spec fn above(lamports: u64, rent: u64) -> int {
    if lamports >= rent {
        lamports - rent
    } else {
        0
    }
}

// ---------------------------------------------------------------------------
// Launches
// ---------------------------------------------------------------------------

/// The configuration keeps every cap: a price from a millionth of a lamport to
/// `10^21` lamports per token, one to ten thousand SOL per doubling, creators'
/// fees of 5%, donations of 10% and kept shares of 20% at most, and a backing
/// from 82.5% to 99%.
pub open spec fn keeps_caps(cfg: LaunchCfg) -> bool {
    &&& 1_000 <= cfg.start_price_fp <= 1_000_000_000_000_000_000_000_000_000_000
    &&& 1_000_000_000 <= cfg.double_vol <= 10_000_000_000_000
    &&& cfg.buy_fee_creator_bps <= 500
    &&& cfg.sell_fee_creator_bps <= 500
    &&& cfg.buy_fee_floor_bps <= 1_000
    &&& cfg.sell_fee_floor_bps <= 2_000
    &&& 8_250 <= cfg.min_backing_bps <= 9_900
}

/// The account is an initialized SPL mint of nine decimals without supply that
/// `authority` alone may mint and nobody may freeze.
pub open spec fn is_ready_mint(a: Account, authority: Seq<u8>) -> bool {
    let data = a.data@;
    &&& a.owner.bytes@ == TOKEN_PROGRAM@
    &&& data.len() >= 82
    &&& number_at(data, 0, 4) == 1
    &&& bytes_at(data, 4, 32) == authority
    &&& number_at(data, 36, 8) == 0
    &&& data[44] == 9
    &&& data[45] == 1
    &&& number_at(data, 46, 4) != 1
}

/// The curve is that of a launch: the mint, creators and rates that were given,
/// at the start price and without volume.
pub open spec fn opens(
    c: Curve,
    mint: Seq<u8>,
    buy_creator: Pubkey,
    sell_creator: Pubkey,
    cfg: LaunchCfg,
    bump: u8,
) -> bool {
    &&& c.mint.bytes@ == mint
    &&& c.buy_creator.bytes@ == buy_creator.bytes@
    &&& c.sell_creator.bytes@ == sell_creator.bytes@
    &&& c.price_fp == cfg.start_price_fp
    &&& c.double_vol == cfg.double_vol
    &&& c.buy_fee_creator_bps == cfg.buy_fee_creator_bps
    &&& c.buy_fee_floor_bps == cfg.buy_fee_floor_bps
    &&& c.sell_fee_creator_bps == cfg.sell_fee_creator_bps
    &&& c.sell_fee_floor_bps == cfg.sell_fee_floor_bps
    &&& c.min_backing_bps == cfg.min_backing_bps
    &&& c.cum_vol == 0
    &&& c.bump == bump
}

/// The calls turn the account `curve`, which the System program owns and which
/// holds `lamports`, into an account of the program with room for a curve and
/// at least its rent. The payer pays what is missing, and every signature is
/// there.
pub open spec fn sets_up(
    calls: Seq<Cpi>,
    program_id: Seq<u8>,
    payer: Seq<u8>,
    curve: Seq<u8>,
    lamports: u64,
    rent: u64,
) -> bool {
    let start = Slot { lamports: lamports as int, space: 0, owner: system_key() };
    let end = after_calls(start, curve, calls);
    &&& end is Some
    &&& (end->0).space == 147
    &&& (end->0).owner == program_id
    &&& (end->0).lamports == if lamports < rent {
        rent
    } else {
        lamports
    }
    &&& forall|i: int| 0 <= i < calls.len() ==> is_authorized(#[trigger] calls[i], payer, curve)
    &&& lamports == 0 ==> calls.len() == 1 && is_create_account(
        calls[0].instruction,
        payer,
        curve,
        rent as int,
        147,
        program_id,
    )
    &&& lamports > 0 ==> forall|who: Seq<u8>|
        #![trigger credited(calls, who)]
        #![trigger debited(calls, who)]
        {
            let missing = if lamports < rent {
                rent - lamports
            } else {
                0
            };
            &&& credited(calls, who) == if who == curve {
                missing
            } else {
                0
            }
            &&& debited(calls, who) == if who == payer {
                missing
            } else {
                0
            }
        }
}

/// How a launch is answered, with `pda` and `bump` what the mint derives. The
/// accounts are payer, curve, mint and System program. Whatever else is wrong,
/// the first thing that is wrong is what the answer says.
pub open spec fn answers_launch(
    program_id: Seq<u8>,
    accounts: Seq<Account>,
    buy_creator: Pubkey,
    sell_creator: Pubkey,
    cfg: LaunchCfg,
    pda: Seq<u8>,
    bump: u8,
    rent: Result<u64, ProgramError>,
    r: Result<InitializePlan, ProgramError>,
) -> bool {
    if accounts.len() < 4 {
        refuses(r, ProgramError::NotEnoughAccountKeys)
    } else {
        let (payer, curve, mint) = (accounts[0], accounts[1], accounts[2]);
        let signed = payer.is_signer;
        let named = signed && accounts[3].key.bytes@ == system_key();
        let capped = named && keeps_caps(cfg);
        let placed = capped && curve.key.bytes@ == pda;
        let fresh = placed && curve.data@.len() == 0 && curve.owner.bytes@ != program_id;
        let ready = fresh && is_ready_mint(mint, pda);
        &&& !signed ==> refuses(r, ProgramError::MissingRequiredSignature)
        &&& signed && !named ==> refuses(r, ProgramError::IncorrectProgramId)
        &&& named && !capped ==> refuses_with(r, E_BAD_PARAMS)
        &&& capped && !placed ==> refuses_with(r, E_BAD_PDA)
        &&& placed && !fresh ==> refuses_with(r, E_ALREADY_INIT)
        &&& fresh && !ready ==> refuses_with(r, E_BAD_MINT)
        &&& ready && rent is Err ==> refuses(r, rent->Err_0)
        &&& ready && rent is Ok ==> r is Ok
        &&& r matches Ok(plan) ==> {
            &&& ready && rent is Ok
            &&& opens(plan.curve, mint.key.bytes@, buy_creator, sell_creator, cfg, bump)
            &&& sets_up(
                plan.cpis@,
                program_id,
                payer.key.bytes@,
                curve.key.bytes@,
                curve.lamports,
                rent->Ok_0,
            )
        }
    }
}

/// The planned calls set the account up.
proof fn lemma_plan_sets_up(
    calls: Seq<Cpi>,
    program_id: Seq<u8>,
    payer: Seq<u8>,
    curve: Seq<u8>,
    lamports: u64,
    rent: u64,
)
    requires
        program_id.len() == 32,
        cpi_views(calls) == initialize_cpis(
            program_id,
            payer,
            curve,
            lamports,
            rent,
        ),
    ensures
        sets_up(calls, program_id, payer, curve, lamports, rent),
{
    let views = initialize_cpis(program_id, payer, curve, lamports, rent);
    let start = Slot { lamports: lamports as int, space: 0, owner: system_key() };
    assert(calls.len() == views.len());
    assert forall|i: int| 0 <= i < views.len() implies #[trigger] calls[i]@ == views[i] by {
        assert(cpi_views(calls)[i] == calls[i]@);
    }
    reveal_with_fuel(after_calls, 4);
    reveal_with_fuel(credited, 4);
    reveal_with_fuel(debited, 4);
    if lamports == 0 {
        assert(calls[0]@ == views[0]);
        lemma_create_account_read(calls[0].instruction, payer, curve, rent, 147, program_id);
        assert(calls.drop_last() =~= Seq::<Cpi>::empty());
        assert(calls.last() == calls[0]);
    } else {
        let n = views.len() as int;
        assert(calls[n - 2]@ == views[n - 2] && calls[n - 1]@ == views[n - 1]);
        lemma_allocate_read(calls[n - 2].instruction, curve, 147);
        lemma_assign_read(calls[n - 1].instruction, curve, program_id);
        let one = calls.drop_last();
        let two = one.drop_last();
        assert(calls.last() == calls[n - 1] && one.last() == calls[n - 2]);
        if lamports < rent {
            let missing = (rent - lamports) as u64;
            assert(calls[0]@ == views[0]);
            lemma_transfer_read(calls[0].instruction, payer, curve, missing);
            assert(two.last() == calls[0]);
            assert(two.drop_last() =~= Seq::<Cpi>::empty());
        } else {
            assert(two =~= Seq::<Cpi>::empty());
        }
    }
}

/// What a launch comes to in the model is how it is answered.
proof fn lemma_launch_answered(
    program_id: Seq<u8>,
    accounts: Seq<Account>,
    buy_creator: Pubkey,
    sell_creator: Pubkey,
    cfg: LaunchCfg,
    pda: Seq<u8>,
    bump: u8,
    rent: Result<u64, ProgramError>,
    r: Result<InitializePlan, ProgramError>,
)
    requires
        program_id.len() == 32,
        is_initialize(
            r,
            initialize_outcome(
                program_id,
                accounts,
                buy_creator,
                sell_creator,
                cfg,
                pda,
                bump,
                rent,
            ),
        ),
    ensures
        answers_launch(
            program_id,
            accounts,
            buy_creator,
            sell_creator,
            cfg,
            pda,
            bump,
            rent,
            r,
        ),
{
    lemma_system_key();
    if accounts.len() >= 4 {
        let data = accounts[2].data@;
        if data.len() >= 82 {
            lemma_number_at(data, 0, 4);
            lemma_number_at(data, 36, 8);
            lemma_number_at(data, 46, 4);
        }
        if r is Ok {
            lemma_plan_sets_up(
                r->Ok_0.cpis@,
                program_id,
                accounts[0].key@,
                accounts[1].key@,
                accounts[1].lamports,
                rent->Ok_0,
            );
        }
    }
}

/// A launch is answered as it should be, at whatever address the mint derives.
pub proof fn law_launches_are_answered_at(
    program_id: &Pubkey,
    accounts: &[Account],
    buy_creator: Pubkey,
    sell_creator: Pubkey,
    cfg: &LaunchCfg,
    pda: &Pubkey,
    bump: u8,
    rent: Result<u64, ProgramError>,
    r: Result<InitializePlan, ProgramError>,
)
    requires
        call_ensures(
            initialize_at,
            (program_id, accounts, buy_creator, sell_creator, cfg, pda, bump, rent),
            r,
        ),
    ensures
        answers_launch(
            program_id.bytes@,
            accounts@,
            buy_creator,
            sell_creator,
            *cfg,
            pda.bytes@,
            bump,
            rent,
            r,
        ),
{
    lemma_launch_answered(
        program_id@,
        accounts@,
        buy_creator,
        sell_creator,
        *cfg,
        pda@,
        bump,
        rent,
        r,
    );
}

/// The address and bump that the program derives from the word `curve` and a
/// mint.
pub open spec fn derived(program_id: Seq<u8>, mint: Seq<u8>) -> Option<(Seq<u8>, u8)> {
    program_address(seq![curve_word(), mint], program_id)
}

/// A launch is answered as it should be, at the address that the mint derives.
pub proof fn law_launches_are_answered(
    program_id: &Pubkey,
    accounts: &[Account],
    buy_creator: Pubkey,
    sell_creator: Pubkey,
    cfg: &LaunchCfg,
    rent: Result<u64, ProgramError>,
    r: Result<InitializePlan, ProgramError>,
)
    requires
        call_ensures(
            initialize,
            (program_id, accounts, buy_creator, sell_creator, cfg, rent),
            r,
        ),
    ensures
        ({
            let (pda, bump) = derived(program_id.bytes@, accounts@[2].key.bytes@)->0;
            answers_launch(
                program_id.bytes@,
                accounts@,
                buy_creator,
                sell_creator,
                *cfg,
                pda,
                bump,
                rent,
                r,
            )
        }),
{
    assert(CURVE_SEED@ =~= curve_word());
    let (pda, bump) = derived(program_id.bytes@, accounts@[2].key.bytes@)->0;
    lemma_launch_answered(
        program_id@,
        accounts@,
        buy_creator,
        sell_creator,
        *cfg,
        pda,
        bump,
        rent,
        r,
    );
}

// ---------------------------------------------------------------------------
// Trades
// ---------------------------------------------------------------------------

/// The creator that a trade pays.
pub open spec fn paid_creator(c: Curve, buying: bool) -> Pubkey {
    if buying {
        c.buy_creator
    } else {
        c.sell_creator
    }
}

/// The accounts of a trade: trader, curve, mint, the trader's token account,
/// creator and Token program, and for a buy the System program. They are in
/// order where the trader signs, both programs are named, there is an amount,
/// the program owns the curve's account, which holds a curve and is where that
/// curve's mint puts it, the mint is that of the curve, the creator is the one
/// recorded, and the token account is one of the mint.
pub open spec fn in_order(
    program_id: Seq<u8>,
    accounts: Seq<Account>,
    buying: bool,
    amount: u64,
    expect: Seq<u8>,
    c: Curve,
) -> bool {
    &&& accounts.len() >= 6
    &&& buying ==> accounts.len() >= 7 && accounts[6].key.bytes@ == system_key()
    &&& accounts[0].is_signer
    &&& accounts[5].key.bytes@ == TOKEN_PROGRAM@
    &&& amount > 0
    &&& accounts[1].owner.bytes@ == program_id
    &&& holds_curve(accounts[1].data@, c)
    &&& accounts[1].key.bytes@ == expect
    &&& accounts[2].key.bytes@ == c.mint.bytes@
    &&& accounts[4].key.bytes@ == paid_creator(c, buying).bytes@
    &&& accounts[3].data@.len() >= 72
    &&& bytes_at(accounts[3].data@, 0, 32) == c.mint.bytes@
}

/// How a trade is answered whose accounts are not in order: the first thing that
/// is wrong is what the answer says.
pub open spec fn answers_disorder<T>(
    program_id: Seq<u8>,
    accounts: Seq<Account>,
    buying: bool,
    amount: u64,
    expect: Seq<u8>,
    c: Curve,
    r: Result<T, ProgramError>,
) -> bool {
    if accounts.len() < 6 || buying && accounts.len() < 7 {
        refuses(r, ProgramError::NotEnoughAccountKeys)
    } else {
        let (curve, mint, holding) = (accounts[1], accounts[2], accounts[3]);
        let signed = accounts[0].is_signer;
        let named = signed && accounts[5].key.bytes@ == TOKEN_PROGRAM@ && (buying
            ==> accounts[6].key.bytes@ == system_key());
        let asked = named && amount > 0;
        let owned = asked && curve.owner.bytes@ == program_id;
        let stored = owned && holds_curve(curve.data@, c);
        let placed = stored && curve.key.bytes@ == expect && mint.key.bytes@ == c.mint.bytes@;
        let paid = placed && accounts[4].key.bytes@ == paid_creator(c, buying).bytes@;
        let held = paid && holding.data@.len() >= 72 && bytes_at(holding.data@, 0, 32)
            == c.mint.bytes@;
        &&& !signed ==> refuses(r, ProgramError::MissingRequiredSignature)
        &&& signed && !named ==> refuses(r, ProgramError::IncorrectProgramId)
        &&& named && !asked ==> refuses_with(r, E_ZERO_AMOUNT)
        &&& asked && !owned ==> refuses_with(r, E_BAD_PDA)
        &&& owned && curve.data@.len() != 147 ==> refuses(r, ProgramError::BorshIoError)
        &&& stored && !placed ==> refuses_with(r, E_BAD_PDA)
        &&& placed && !paid ==> refuses_with(r, E_BAD_CREATOR)
        &&& paid && !held ==> refuses_with(r, E_BAD_TOKEN_ACCOUNT)
    }
}

/// The curve of a trade in the model is the one that is in order.
proof fn lemma_trade_checked<T>(
    program_id: Seq<u8>,
    accounts: Seq<Account>,
    buying: bool,
    amount: u64,
    expect: Seq<u8>,
    c: Curve,
    r: Result<T, ProgramError>,
)
    requires
        accounts.len() >= 2 && accounts[1].data@.len() == 147 ==> holds_curve(accounts[1].data@, c),
        trade_curve(program_id, accounts, buying, amount, expect) matches Err(e) ==> refuses(r, e),
    ensures
        answers_disorder(program_id, accounts, buying, amount, expect, c, r),
        trade_curve(program_id, accounts, buying, amount, expect) is Ok <==> in_order(
            program_id,
            accounts,
            buying,
            amount,
            expect,
            c,
        ),
        trade_curve(program_id, accounts, buying, amount, expect) matches Ok(d) ==> d == c,
{
    lemma_system_key();
    if accounts.len() >= 6 {
        let data = accounts[1].data@;
        if data.len() == 147 {
            lemma_held_is_stored(data, c);
        } else {
            lemma_stored_curve_held(data);
        }
        assert(accounts[3].data@.len() >= 72 ==> bytes_at(accounts[3].data@, 0, 32)
            == accounts[3].data@.subrange(0, 32));
    }
}

// ---------------------------------------------------------------------------
// Buys
// ---------------------------------------------------------------------------

/// The call is a transfer that `from` alone signs.
pub open spec fn is_payment(cpi: Cpi, from: Seq<u8>) -> bool {
    !cpi.signed && exists|to: Seq<u8>, sum: int| #[trigger]
        is_transfer(cpi.instruction, from, to, sum) && sum > 0
}

/// The order is that of a buy of `lamports`, of which `fee` are the creator's
/// and `donation` the vault's against nothing.
///
/// Its calls are transfers that the buyer alone signs. They take just the
/// lamports from the buyer and bring the fee to the creator and the rest to the
/// curve's account.
pub open spec fn orders_buy(
    accounts: Seq<Account>,
    c: Curve,
    lamports: u64,
    min_out: u64,
    rent: u64,
    fee: int,
    donation: int,
    order: BuyOrder,
) -> bool {
    let (buyer, curve, creator) = (
        accounts[0].key.bytes@,
        accounts[1].key.bytes@,
        accounts[4].key.bytes@,
    );
    let calls = order.transfers@;
    &&& forall|who: Seq<u8>| #[trigger]
        credited(calls, who) == (if who == curve {
            lamports - fee
        } else {
            0
        }) + (if who == creator {
            fee
        } else {
            0
        })
    &&& forall|who: Seq<u8>| #[trigger]
        debited(calls, who) == if who == buyer {
            lamports as int
        } else {
            0
        }
    &&& forall|i: int| 0 <= i < calls.len() ==> is_payment(#[trigger] calls[i], buyer)
    &&& order.curve == c
    &&& order.split.creator_fee == fee
    &&& order.split.donation == donation
    &&& order.split.net == lamports - fee - donation
    &&& order.vault == above(accounts[1].lamports, rent)
    &&& order.supply == number_at(accounts[2].data@, 36, 8)
    &&& order.min_out == min_out
    &&& order.dest.bytes@ == accounts[3].key.bytes@
    &&& order.authority.bytes@ == curve
}

/// How a buy is answered, with `c` the curve that is stored and `expect` the
/// address that its mint derives: where the accounts are in order, something
/// mints, the rent is known and the mint can be read, it is ordered.
pub open spec fn answers_buy(
    program_id: Seq<u8>,
    accounts: Seq<Account>,
    lamports: u64,
    min_out: u64,
    expect: Seq<u8>,
    rent: Result<u64, ProgramError>,
    c: Curve,
    fee: int,
    donation: int,
    r: Result<BuyOrder, ProgramError>,
) -> bool {
    let passed = in_order(program_id, accounts, true, lamports, expect, c);
    let mints = passed && fee + donation < lamports;
    let known = mints && rent is Ok;
    let read = known && accounts[2].data@.len() >= 82;
    &&& answers_disorder(program_id, accounts, true, lamports, expect, c, r)
    &&& passed && !mints ==> refuses_with(r, E_ZERO_AMOUNT)
    &&& mints && !known ==> refuses(r, rent->Err_0)
    &&& known && !read ==> refuses_with(r, E_BAD_MINT)
    &&& r is Ok <==> read
    &&& r matches Ok(order) ==> orders_buy(
        accounts,
        c,
        lamports,
        min_out,
        rent->Ok_0,
        fee,
        donation,
        order,
    )
}

/// The transfers of a buy, one by one.
proof fn lemma_buy_transfers(
    calls: Seq<Cpi>,
    buyer: Seq<u8>,
    curve: Seq<u8>,
    creator: Seq<u8>,
    rest: u64,
    fee: u64,
)
    requires
        cpi_views(calls) == buy_transfers(
            buyer,
            curve,
            creator,
            rest as int,
            fee as nat,
        ),
        rest > 0,
    ensures
        forall|who: Seq<u8>| #[trigger]
            credited(calls, who) == (if who == curve {
                rest as int
            } else {
                0
            }) + (if who == creator {
                fee as int
            } else {
                0
            }),
        forall|who: Seq<u8>| #[trigger]
            debited(calls, who) == if who == buyer {
                rest + fee
            } else {
                0
            },
        forall|i: int| 0 <= i < calls.len() ==> is_payment(#[trigger] calls[i], buyer),
{
    let views = buy_transfers(buyer, curve, creator, rest as int, fee as nat);
    assert(calls.len() == views.len());
    assert forall|i: int| 0 <= i < views.len() implies #[trigger] calls[i]@ == views[i] by {
        assert(cpi_views(calls)[i] == calls[i]@);
    }
    assert(calls[0]@ == views[0]);
    lemma_transfer_read(calls[0].instruction, buyer, curve, rest);
    assert(is_transfer(calls[0].instruction, buyer, curve, rest as int));
    reveal_with_fuel(credited, 3);
    reveal_with_fuel(debited, 3);
    if fee > 0 {
        assert(calls[1]@ == views[1]);
        lemma_transfer_read(calls[1].instruction, buyer, creator, fee);
        assert(is_transfer(calls[1].instruction, buyer, creator, fee as int));
        let first = calls.drop_last();
        assert(first.last() == calls[0]);
        assert(first.drop_last() =~= Seq::<Cpi>::empty());
        assert(calls.last() == calls[1]);
    } else {
        assert(calls.drop_last() =~= Seq::<Cpi>::empty());
        assert(calls.last() == calls[0]);
    }
}

/// What a buy comes to in the model is how it is answered.
proof fn lemma_buy_answered(
    program_id: Seq<u8>,
    accounts: Seq<Account>,
    lamports: u64,
    min_out: u64,
    expect: Seq<u8>,
    rent: Result<u64, ProgramError>,
    c: Curve,
    fee: int,
    donation: int,
    r: Result<BuyOrder, ProgramError>,
)
    requires
        accounts.len() >= 2 && accounts[1].data@.len() == 147 ==> holds_curve(accounts[1].data@, c),
        c.buy_fee_creator_bps + c.buy_fee_floor_bps <= 10_000,
        is_share(fee, lamports as int, c.buy_fee_creator_bps),
        is_share(donation, lamports as int, c.buy_fee_floor_bps),
        is_buy(r, buy_outcome(program_id, accounts, lamports, min_out, expect, rent)),
    ensures
        answers_buy(
            program_id,
            accounts,
            lamports,
            min_out,
            expect,
            rent,
            c,
            fee,
            donation,
            r,
        ),
{
    lemma_trade_checked(program_id, accounts, true, lamports, expect, c, r);
    lemma_is_share(lamports as nat, c.buy_fee_creator_bps);
    lemma_is_share(lamports as nat, c.buy_fee_floor_bps);
    lemma_two_shares(lamports as nat, c.buy_fee_creator_bps, c.buy_fee_floor_bps);
    if r is Ok {
        let order = r->Ok_0;
        assert(cpi_views(order.transfers@)
            == buy_outcome(program_id, accounts, lamports, min_out, expect, rent)->Ok_0.transfers);
        lemma_number_at(accounts[2].data@, 36, 8);
        lemma_buy_transfers(
            order.transfers@,
            accounts[0].key@,
            accounts[1].key@,
            accounts[4].key@,
            (lamports - fee) as u64,
            fee as u64,
        );
        assert(orders_buy(
            accounts,
            c,
            lamports,
            min_out,
            rent->Ok_0,
            fee,
            donation,
            order,
        ));
    }
}

/// A buy is answered as it should be, at whatever address the curve's mint
/// derives.
pub proof fn law_buys_are_answered_at(
    program_id: &Pubkey,
    accounts: &[Account],
    lamports: u64,
    min_out: u64,
    expect: &Pubkey,
    rent: Result<u64, ProgramError>,
    c: Curve,
    fee: int,
    donation: int,
    r: Result<BuyOrder, ProgramError>,
)
    requires
        accounts@.len() >= 2 && accounts@[1].data@.len() == 147 ==> holds_curve(
            accounts@[1].data@,
            c,
        ),
        c.buy_fee_creator_bps + c.buy_fee_floor_bps <= 10_000,
        is_share(fee, lamports as int, c.buy_fee_creator_bps),
        is_share(donation, lamports as int, c.buy_fee_floor_bps),
        call_ensures(buy_at, (program_id, accounts, lamports, min_out, expect, rent), r),
    ensures
        answers_buy(
            program_id.bytes@,
            accounts@,
            lamports,
            min_out,
            expect.bytes@,
            rent,
            c,
            fee,
            donation,
            r,
        ),
{
    lemma_buy_answered(
        program_id@,
        accounts@,
        lamports,
        min_out,
        expect@,
        rent,
        c,
        fee,
        donation,
        r,
    );
}

/// The address in the model is the one that the mint derives.
proof fn lemma_stored_address(program_id: Seq<u8>, curve_ai: Account, c: Curve)
    requires
        holds_curve(curve_ai.data@, c),
    ensures
        stored_address(program_id, curve_ai) == (derived(program_id, c.mint.bytes@)->0).0,
{
    lemma_held_is_stored(curve_ai.data@, c);
    assert(CURVE_SEED@ =~= curve_word());
}

/// An accepted trade's answer does not depend on the address where its accounts
/// hold no curve.
proof fn lemma_no_curve_no_address(
    program_id: Seq<u8>,
    accounts: Seq<Account>,
    buying: bool,
    amount: u64,
    a: Seq<u8>,
    b: Seq<u8>,
)
    requires
        accounts.len() >= 2 ==> accounts[1].data@.len() != 147,
    ensures
        trade_curve(program_id, accounts, buying, amount, a) == trade_curve(
            program_id,
            accounts,
            buying,
            amount,
            b,
        ),
        trade_curve(program_id, accounts, buying, amount, a) is Err,
{
    if accounts.len() >= 6 {
        lemma_stored_curve_held(accounts[1].data@);
    }
}

/// A buy is answered as it should be, at the address that the curve's mint
/// derives.
pub proof fn law_buys_are_answered(
    program_id: &Pubkey,
    accounts: &[Account],
    lamports: u64,
    min_out: u64,
    rent: Result<u64, ProgramError>,
    c: Curve,
    fee: int,
    donation: int,
    r: Result<BuyOrder, ProgramError>,
)
    requires
        accounts@.len() >= 2 && accounts@[1].data@.len() == 147 ==> holds_curve(
            accounts@[1].data@,
            c,
        ),
        c.buy_fee_creator_bps + c.buy_fee_floor_bps <= 10_000,
        is_share(fee, lamports as int, c.buy_fee_creator_bps),
        is_share(donation, lamports as int, c.buy_fee_floor_bps),
        call_ensures(buy, (program_id, accounts, lamports, min_out, rent), r),
    ensures
        answers_buy(
            program_id.bytes@,
            accounts@,
            lamports,
            min_out,
            (derived(program_id.bytes@, c.mint.bytes@)->0).0,
            rent,
            c,
            fee,
            donation,
            r,
        ),
{
    lemma_buy_at_derived(program_id@, accounts@, lamports, min_out, rent, c, fee, donation, r);
}

/// The same of the model.
proof fn lemma_buy_at_derived(
    program_id: Seq<u8>,
    accounts: Seq<Account>,
    lamports: u64,
    min_out: u64,
    rent: Result<u64, ProgramError>,
    c: Curve,
    fee: int,
    donation: int,
    r: Result<BuyOrder, ProgramError>,
)
    requires
        accounts.len() >= 2 && accounts[1].data@.len() == 147 ==> holds_curve(accounts[1].data@, c),
        c.buy_fee_creator_bps + c.buy_fee_floor_bps <= 10_000,
        is_share(fee, lamports as int, c.buy_fee_creator_bps),
        is_share(donation, lamports as int, c.buy_fee_floor_bps),
        is_buy(
            r,
            buy_outcome(
                program_id,
                accounts,
                lamports,
                min_out,
                stored_address(program_id, accounts[1]),
                rent,
            ),
        ),
    ensures
        answers_buy(
            program_id,
            accounts,
            lamports,
            min_out,
            (derived(program_id, c.mint.bytes@)->0).0,
            rent,
            c,
            fee,
            donation,
            r,
        ),
{
    let expect = (derived(program_id, c.mint.bytes@)->0).0;
    let address = stored_address(program_id, accounts[1]);
    if accounts.len() >= 2 && accounts[1].data@.len() == 147 {
        lemma_stored_address(program_id, accounts[1], c);
    } else {
        lemma_no_curve_no_address(program_id, accounts, true, lamports, address, expect);
    }
    lemma_buy_answered(
        program_id,
        accounts,
        lamports,
        min_out,
        expect,
        rent,
        c,
        fee,
        donation,
        r,
    );
}

/// The transfers of an accepted buy add up: to the lamports paid, and at the
/// curve's account to the amount by which the buy raises the vault.
pub proof fn law_buy_transfers_add_up(
    program_id: &Pubkey,
    accounts: &[Account],
    lamports: u64,
    min_out: u64,
    rent: Result<u64, ProgramError>,
    order: BuyOrder,
)
    requires
        call_ensures(buy, (program_id, accounts, lamports, min_out, rent), Ok(order)),
        order.curve.buy_fee_creator_bps + order.curve.buy_fee_floor_bps <= 10_000,
        accounts@[1].key.bytes@ != accounts@[4].key.bytes@,
    ensures
        ({
            let m = Market {
                curve: order.curve,
                vault: order.vault as nat,
                supply: order.supply as nat,
            };
            let to_vault = credited(order.transfers@, accounts@[1].key.bytes@);
            let to_creator = credited(order.transfers@, accounts@[4].key.bytes@);
            &&& to_vault + to_creator == lamports
            &&& debited(order.transfers@, accounts@[0].key.bytes@) == lamports
            &&& to_vault == order.split.net + order.split.donation
            &&& is_share(to_creator, lamports as int, order.curve.buy_fee_creator_bps)
            &&& m.after_buy(lamports) matches Some(n) ==> n.vault == m.vault + to_vault
        }),
{
    let expect = stored_address(program_id@, accounts@[1]);
    let c = order.curve;
    assert(trade_curve(program_id@, accounts@, true, lamports, expect) == Ok::<
        Curve,
        ProgramError,
    >(c));
    lemma_stored_curve_held(accounts@[1].data@);
    lemma_is_share(lamports as nat, c.buy_fee_creator_bps);
    lemma_is_share(lamports as nat, c.buy_fee_floor_bps);
    lemma_two_shares(lamports as nat, c.buy_fee_creator_bps, c.buy_fee_floor_bps);
    law_buys_are_answered(
        program_id,
        accounts,
        lamports,
        min_out,
        rent,
        c,
        share(lamports as nat, c.buy_fee_creator_bps) as int,
        share(lamports as nat, c.buy_fee_floor_bps) as int,
        Ok(order),
    );
}

/// A settled buy mints what the order was quoted to the buyer's token account,
/// with the curve's signature, and leaves the curve at the quoted price, with
/// what minted added to its volume and all else as it was. One that cannot be
/// quoted is refused for the same reason.
pub proof fn law_buys_settle_as_quoted(
    order: &BuyOrder,
    quote: Result<(u64, u128), ProgramError>,
    r: Result<BuySettlement, ProgramError>,
)
    requires
        call_ensures(settle_buy, (order,), r),
        call_ensures(
            quote_buy,
            (
                &order.curve,
                order.vault,
                order.supply,
                order.split.donation,
                order.split.net,
                order.min_out,
            ),
            quote,
        ),
    ensures
        quote matches Err(e) ==> refuses(r, e),
        quote matches Ok((out, price)) ==> r is Ok && ({
            let (before, done) = (order.curve, r->Ok_0);
            let volume = before.cum_vol + order.split.net;
            &&& done.out == out
            &&& done.curve.price_fp == price
            &&& done.curve.cum_vol == if volume > u128::MAX {
                u128::MAX as int
            } else {
                volume
            }
            &&& done.curve.mint == before.mint
            &&& done.curve.buy_creator == before.buy_creator
            &&& done.curve.sell_creator == before.sell_creator
            &&& done.curve.double_vol == before.double_vol
            &&& done.curve.buy_fee_creator_bps == before.buy_fee_creator_bps
            &&& done.curve.buy_fee_floor_bps == before.buy_fee_floor_bps
            &&& done.curve.sell_fee_creator_bps == before.sell_fee_creator_bps
            &&& done.curve.sell_fee_floor_bps == before.sell_fee_floor_bps
            &&& done.curve.min_backing_bps == before.min_backing_bps
            &&& done.curve.bump == before.bump
            &&& done.mint_to.signed
            &&& is_mint_to(
                done.mint_to.instruction,
                before.mint.bytes@,
                order.dest.bytes@,
                order.authority.bytes@,
                out as int,
            )
        }),
{
    if quote is Ok {
        lemma_mint_to_read(
            r->Ok_0.mint_to.instruction,
            order.curve.mint@,
            order.dest@,
            order.authority@,
            r->Ok_0.out,
        );
    }
}

/// A buy that is ordered, paid and settled takes the market the step that
/// `after_buy` says: the vault by what the transfers bring, the supply by what
/// is minted, and the curve to the one that is stored.
pub proof fn law_settled_buys_step_the_market(
    program_id: &Pubkey,
    accounts: &[Account],
    lamports: u64,
    min_out: u64,
    rent: Result<u64, ProgramError>,
    order: BuyOrder,
    done: BuySettlement,
)
    requires
        call_ensures(buy, (program_id, accounts, lamports, min_out, rent), Ok(order)),
        call_ensures(settle_buy, (&order,), Ok(done)),
        order.curve.buy_fee_creator_bps + order.curve.buy_fee_floor_bps <= 10_000,
        accounts@[1].key.bytes@ != accounts@[4].key.bytes@,
    ensures
        ({
            let m = Market {
                curve: order.curve,
                vault: order.vault as nat,
                supply: order.supply as nat,
            };
            let paid_in = credited(order.transfers@, accounts@[1].key.bytes@);
            &&& done.out >= min_out
            &&& m.after_buy(lamports) == Some(
                Market {
                    curve: done.curve,
                    vault: (order.vault + paid_in) as nat,
                    supply: (order.supply + done.out) as nat,
                },
            )
        }),
{
    law_buy_transfers_add_up(program_id, accounts, lamports, min_out, rent, order);
    lemma_two_shares(
        lamports as nat,
        order.curve.buy_fee_creator_bps,
        order.curve.buy_fee_floor_bps,
    );
}

// ---------------------------------------------------------------------------
// Sells
// ---------------------------------------------------------------------------

/// The order is that of a sell of `units`, divided into these parts: the seller
/// burns just the units, and just the seller's and the creator's part leave the
/// vault.
pub open spec fn orders_sell(
    accounts: Seq<Account>,
    units: u64,
    to_seller: int,
    fee: int,
    kept: int,
    order: SellOrder,
) -> bool {
    &&& order.units == units
    &&& !order.burn.signed
    &&& is_burn(
        order.burn.instruction,
        accounts[3].key.bytes@,
        accounts[2].key.bytes@,
        accounts[0].key.bytes@,
        units as int,
    )
    &&& order.split.to_seller == to_seller
    &&& order.split.creator_fee == fee
    &&& order.split.floor_keep == kept
    &&& order.vault_out == to_seller + fee
}

/// How a sell is answered, with `c` the curve that is stored and `expect` the
/// address that its mint derives: where the accounts are in order, the mint can
/// be read, there are so many units, the rent is known and the seller gets
/// enough, it is ordered, divided as its share of the vault is.
pub open spec fn answers_sell(
    program_id: Seq<u8>,
    accounts: Seq<Account>,
    units: u64,
    min_out: u64,
    expect: Seq<u8>,
    rent: Result<u64, ProgramError>,
    c: Curve,
    r: Result<SellOrder, ProgramError>,
) -> bool {
    let passed = in_order(program_id, accounts, false, units, expect, c);
    let supply = number_at(accounts[2].data@, 36, 8);
    let read = passed && accounts[2].data@.len() >= 82;
    let there = read && units <= supply;
    let known = there && rent is Ok;
    &&& answers_disorder(program_id, accounts, false, units, expect, c, r)
    &&& passed && !read ==> refuses_with(r, E_BAD_MINT)
    &&& read && !there ==> refuses_with(r, E_ZERO_AMOUNT)
    &&& there && !known ==> refuses(r, rent->Err_0)
    &&& r is Ok ==> known
    &&& known ==> forall|to_seller: int, fee: int, kept: int| #[trigger]
        divides_sell(
            c,
            above(accounts[1].lamports, rent->Ok_0),
            supply as int,
            units as int,
            to_seller,
            fee,
            kept,
        ) ==> if to_seller < min_out {
            refuses_with(r, E_SLIPPAGE)
        } else {
            r is Ok && orders_sell(accounts, units, to_seller, fee, kept, r->Ok_0)
        }
}

/// Every sell is divided in some way.
pub proof fn lemma_sell_divides(c: Curve, vault: int, supply: int, units: int)
    requires
        0 <= vault,
        0 < supply,
        0 <= units,
    ensures
        exists|to_seller: int, fee: int, kept: int| #[trigger]
            divides_sell(c, vault, supply, units, to_seller, fee, kept),
{
    let a = units * vault;
    assert(0 <= a) by (nonlinear_arith)
        requires
            a == units * vault,
            0 <= units,
            0 <= vault,
    ;
    lemma_is_quotient(a, supply);
    let g = a / supply;
    assert(0 <= g) by (nonlinear_arith)
        requires
            g == a / supply,
            0 <= a,
            0 < supply,
    ;
    lemma_is_share(g as nat, c.sell_fee_creator_bps);
    lemma_is_share(g as nat, c.sell_fee_floor_bps);
    let fee = share(g as nat, c.sell_fee_creator_bps) as int;
    let kept = if units == supply {
        0
    } else {
        share(g as nat, c.sell_fee_floor_bps) as int
    };
    assert(divides_sell(c, vault, supply, units, g - fee - kept, fee, kept));
}

/// What a sell comes to in the model is how it is answered.
proof fn lemma_sell_answered(
    program_id: Seq<u8>,
    accounts: Seq<Account>,
    units: u64,
    min_out: u64,
    expect: Seq<u8>,
    rent: Result<u64, ProgramError>,
    c: Curve,
    r: Result<SellOrder, ProgramError>,
)
    requires
        accounts.len() >= 2 && accounts[1].data@.len() == 147 ==> holds_curve(accounts[1].data@, c),
        is_sell(r, sell_outcome(program_id, accounts, units, min_out, expect, rent)),
    ensures
        answers_sell(program_id, accounts, units, min_out, expect, rent, c, r),
{
    lemma_trade_checked(program_id, accounts, false, units, expect, c, r);
    let supply = number_at(accounts[2].data@, 36, 8);
    let passed = in_order(program_id, accounts, false, units, expect, c);
    let read = passed && accounts[2].data@.len() >= 82;
    if read {
        lemma_number_at(accounts[2].data@, 36, 8);
    }
    if read && units <= supply && rent is Ok {
        let vault = above(accounts[1].lamports, rent->Ok_0);
        let (v, s, u) = (vault as nat, supply, units as nat);
        let g = sell_gross(v, s, u);
        assert(u * v == units * vault);
        lemma_is_share(g, c.sell_fee_creator_bps);
        lemma_is_share(g, c.sell_fee_floor_bps);
        if r is Ok {
            lemma_burn_read(
                r->Ok_0.burn.instruction,
                accounts[3].key@,
                accounts[2].key@,
                accounts[0].key@,
                units,
            );
        }
        assert forall|to_seller: int, fee: int, kept: int| #[trigger]
            divides_sell(c, vault, supply as int, units as int, to_seller, fee, kept) implies (
        if to_seller < min_out {
            refuses_with(r, E_SLIPPAGE)
        } else {
            r is Ok && orders_sell(accounts, units, to_seller, fee, kept, r->Ok_0)
        }) by {
            lemma_one_quotient(to_seller + fee + kept, units * vault, supply as int);
        }
    }
}

/// A sell is answered as it should be, at whatever address the curve's mint
/// derives.
pub proof fn law_sells_are_answered_at(
    program_id: &Pubkey,
    accounts: &[Account],
    units: u64,
    min_out: u64,
    expect: &Pubkey,
    rent: Result<u64, ProgramError>,
    c: Curve,
    r: Result<SellOrder, ProgramError>,
)
    requires
        accounts@.len() >= 2 && accounts@[1].data@.len() == 147 ==> holds_curve(
            accounts@[1].data@,
            c,
        ),
        call_ensures(sell_at, (program_id, accounts, units, min_out, expect, rent), r),
    ensures
        answers_sell(
            program_id.bytes@,
            accounts@,
            units,
            min_out,
            expect.bytes@,
            rent,
            c,
            r,
        ),
{
    lemma_sell_answered(program_id@, accounts@, units, min_out, expect@, rent, c, r);
}

/// The same of the model, at the address that the curve's mint derives.
proof fn lemma_sell_at_derived(
    program_id: Seq<u8>,
    accounts: Seq<Account>,
    units: u64,
    min_out: u64,
    rent: Result<u64, ProgramError>,
    c: Curve,
    r: Result<SellOrder, ProgramError>,
)
    requires
        accounts.len() >= 2 && accounts[1].data@.len() == 147 ==> holds_curve(accounts[1].data@, c),
        is_sell(
            r,
            sell_outcome(
                program_id,
                accounts,
                units,
                min_out,
                stored_address(program_id, accounts[1]),
                rent,
            ),
        ),
    ensures
        answers_sell(
            program_id,
            accounts,
            units,
            min_out,
            (derived(program_id, c.mint.bytes@)->0).0,
            rent,
            c,
            r,
        ),
{
    let expect = (derived(program_id, c.mint.bytes@)->0).0;
    let address = stored_address(program_id, accounts[1]);
    if accounts.len() >= 2 && accounts[1].data@.len() == 147 {
        lemma_stored_address(program_id, accounts[1], c);
    } else {
        lemma_no_curve_no_address(program_id, accounts, false, units, address, expect);
    }
    lemma_sell_answered(program_id, accounts, units, min_out, expect, rent, c, r);
}

/// A sell is answered as it should be, at the address that the curve's mint
/// derives.
pub proof fn law_sells_are_answered(
    program_id: &Pubkey,
    accounts: &[Account],
    units: u64,
    min_out: u64,
    rent: Result<u64, ProgramError>,
    c: Curve,
    r: Result<SellOrder, ProgramError>,
)
    requires
        accounts@.len() >= 2 && accounts@[1].data@.len() == 147 ==> holds_curve(
            accounts@[1].data@,
            c,
        ),
        call_ensures(sell, (program_id, accounts, units, min_out, rent), r),
    ensures
        answers_sell(
            program_id.bytes@,
            accounts@,
            units,
            min_out,
            (derived(program_id.bytes@, c.mint.bytes@)->0).0,
            rent,
            c,
            r,
        ),
{
    lemma_sell_at_derived(program_id@, accounts@, units, min_out, rent, c, r);
}

/// An accepted sell takes the market the step that `after_sell` says: the vault
/// by what leaves it, and the supply by what is burned.
pub proof fn law_sell_orders_step_the_market(
    program_id: &Pubkey,
    accounts: &[Account],
    units: u64,
    min_out: u64,
    rent: Result<u64, ProgramError>,
    c: Curve,
    order: SellOrder,
)
    requires
        holds_curve(accounts@[1].data@, c),
        c.sell_fee_creator_bps + c.sell_fee_floor_bps <= 10_000,
        call_ensures(sell, (program_id, accounts, units, min_out, rent), Ok(order)),
    ensures
        ({
            let vault = above(accounts@[1].lamports, rent->Ok_0);
            let supply = number_at(accounts@[2].data@, 36, 8);
            let m = Market { curve: c, vault: vault as nat, supply };
            &&& order.split.to_seller >= min_out
            &&& order.vault_out == order.split.to_seller + order.split.creator_fee
            &&& order.vault_out <= vault
            &&& units == supply ==> order.vault_out == vault
            &&& m.after_sell(units) == Some(
                Market {
                    curve: c,
                    vault: (vault - order.vault_out) as nat,
                    supply: (supply - units) as nat,
                },
            )
        }),
{
    let vault = above(accounts@[1].lamports, rent->Ok_0);
    let supply = number_at(accounts@[2].data@, 36, 8);
    let expect = (derived(program_id@, c.mint@)->0).0;
    law_sells_are_answered(program_id, accounts, units, min_out, rent, c, Ok(order));
    lemma_stored_address(program_id@, accounts@[1], c);
    lemma_trade_checked(
        program_id@,
        accounts@,
        false,
        units,
        expect,
        c,
        Ok::<SellOrder, ProgramError>(order),
    );
    lemma_number_at(accounts@[2].data@, 36, 8);
    lemma_gross(vault as nat, supply, units as nat);
    lemma_two_shares(
        sell_gross(vault as nat, supply, units as nat),
        c.sell_fee_creator_bps,
        c.sell_fee_floor_bps,
    );
}

/// A sell is finished just where the curve's account keeps its rent.
pub proof fn law_sells_leave_the_rent(
    lamports: u64,
    rent: Result<u64, ProgramError>,
    r: Result<(), ProgramError>,
)
    requires
        call_ensures(finish_sell, (lamports, rent), r),
    ensures
        r is Ok <==> rent is Ok && rent->Ok_0 <= lamports,
        rent matches Err(e) ==> refuses(r, e),
        rent is Ok && r is Err ==> refuses_with(r, E_INSUFFICIENT_VAULT),
{
}

// ---------------------------------------------------------------------------
// Dispatch
// ---------------------------------------------------------------------------

/// How the instruction that `data` carries is answered: a launch with just the
/// creators and rates that it carries, a trade with just its own amount and
/// minimum.
///
/// `c` is the curve that a trade's accounts hold, `fee` and `donation` the
/// shares of a buy.
pub open spec fn answers_instruction(
    program_id: Seq<u8>,
    accounts: Seq<Account>,
    ix: CurveInstruction,
    rent: Result<u64, ProgramError>,
    c: Curve,
    fee: int,
    donation: int,
    r: Result<Pending, ProgramError>,
) -> bool {
    match ix {
        CurveInstruction::Initialize {
            buy_creator,
            sell_creator,
            start_price_fp,
            double_vol,
            buy_fee_creator_bps,
            buy_fee_floor_bps,
            sell_fee_creator_bps,
            sell_fee_floor_bps,
            min_backing_bps,
        } => {
            let cfg = LaunchCfg {
                start_price_fp,
                double_vol,
                buy_fee_creator_bps,
                buy_fee_floor_bps,
                sell_fee_creator_bps,
                sell_fee_floor_bps,
                min_backing_bps,
            };
            let (pda, bump) = derived(program_id, accounts[2].key.bytes@)->0;
            &&& r is Ok ==> r->Ok_0 is Initialize
            &&& answers_launch(
                program_id,
                accounts,
                buy_creator,
                sell_creator,
                cfg,
                pda,
                bump,
                rent,
                match r {
                    Ok(pending) => Ok(pending->Initialize_0),
                    Err(e) => Err(e),
                },
            )
        },
        CurveInstruction::Buy { lamports, min_out } => {
            &&& r is Ok ==> r->Ok_0 is Buy
            &&& answers_buy(
                program_id,
                accounts,
                lamports,
                min_out,
                (derived(program_id, c.mint.bytes@)->0).0,
                rent,
                c,
                fee,
                donation,
                match r {
                    Ok(pending) => Ok(pending->Buy_0),
                    Err(e) => Err(e),
                },
            )
        },
        CurveInstruction::Sell { units, min_out } => {
            &&& r is Ok ==> r->Ok_0 is Sell
            &&& answers_sell(
                program_id,
                accounts,
                units,
                min_out,
                (derived(program_id, c.mint.bytes@)->0).0,
                rent,
                c,
                match r {
                    Ok(pending) => Ok(pending->Sell_0),
                    Err(e) => Err(e),
                },
            )
        },
    }
}

/// What the law on instructions takes as given: `c` is the curve that the
/// accounts hold, if they hold one, and `fee` and `donation` are the shares of a
/// buy.
pub open spec fn describes_trade(
    accounts: Seq<Account>,
    ix: CurveInstruction,
    c: Curve,
    fee: int,
    donation: int,
) -> bool {
    &&& accounts.len() >= 2 && accounts[1].data@.len() == 147 ==> holds_curve(accounts[1].data@, c)
    &&& c.buy_fee_creator_bps + c.buy_fee_floor_bps <= 10_000
    &&& ix matches CurveInstruction::Buy { lamports, .. } ==> is_share(
        fee,
        lamports as int,
        c.buy_fee_creator_bps,
    ) && is_share(donation, lamports as int, c.buy_fee_floor_bps)
}

/// What an instruction comes to in the model is how it is answered.
proof fn lemma_instruction_answered(
    program_id: Seq<u8>,
    accounts: Seq<Account>,
    data: Seq<u8>,
    ix: CurveInstruction,
    rent: Result<u64, ProgramError>,
    c: Curve,
    fee: int,
    donation: int,
    r: Result<Pending, ProgramError>,
)
    requires
        program_id.len() == 32,
        carries(data, ix),
        ix is Initialize || describes_trade(accounts, ix, c, fee, donation),
        is_pending(r, instruction_outcome(program_id, accounts, data, rent)),
    ensures
        answers_instruction(program_id, accounts, ix, rent, c, fee, donation, r),
{
    lemma_carried_is_written(data, ix);
    lemma_instruction_round_trip(ix);
    match ix {
        CurveInstruction::Initialize { buy_creator, sell_creator, .. } => {
            let cfg = launch_cfg(ix);
            assert(CURVE_SEED@ =~= curve_word());
            let (pda, bump) = derived(program_id, accounts[2].key.bytes@)->0;
            let plan: Result<InitializePlan, ProgramError> = match r {
                Ok(pending) => Ok(pending->Initialize_0),
                Err(e) => Err(e),
            };
            assert(is_initialize(
                plan,
                launch_outcome(program_id, accounts, buy_creator, sell_creator, cfg, rent),
            ));
            lemma_launch_answered(
                program_id,
                accounts,
                buy_creator,
                sell_creator,
                cfg,
                pda,
                bump,
                rent,
                plan,
            );
        },
        CurveInstruction::Buy { lamports, min_out } => {
            let order: Result<BuyOrder, ProgramError> = match r {
                Ok(pending) => Ok(pending->Buy_0),
                Err(e) => Err(e),
            };
            lemma_buy_at_derived(
                program_id,
                accounts,
                lamports,
                min_out,
                rent,
                c,
                fee,
                donation,
                order,
            );
        },
        CurveInstruction::Sell { units, min_out } => {
            let order: Result<SellOrder, ProgramError> = match r {
                Ok(pending) => Ok(pending->Sell_0),
                Err(e) => Err(e),
            };
            lemma_sell_at_derived(program_id, accounts, units, min_out, rent, c, order);
        },
    }
}

/// An instruction is answered by what its bytes carry.
pub proof fn law_instructions_are_answered(
    program_id: &Pubkey,
    accounts: &[Account],
    data: &[u8],
    rent: Result<u64, ProgramError>,
    ix: CurveInstruction,
    c: Curve,
    fee: int,
    donation: int,
    r: Result<Pending, ProgramError>,
)
    requires
        carries(data@, ix),
        ix is Initialize || describes_trade(accounts@, ix, c, fee, donation),
        call_ensures(process_instruction, (program_id, accounts, data, rent), r) || call_ensures(
            try_process_instruction,
            (program_id, accounts, data, rent),
            Some(r),
        ),
    ensures
        answers_instruction(program_id.bytes@, accounts@, ix, rent, c, fee, donation, r),
{
    lemma_instruction_answered(program_id@, accounts@, data@, ix, rent, c, fee, donation, r);
}

/// Bytes that carry no instruction are refused.
pub proof fn law_other_bytes_are_refused(
    program_id: &Pubkey,
    accounts: &[Account],
    data: &[u8],
    rent: Result<u64, ProgramError>,
    r: Result<Pending, ProgramError>,
)
    requires
        forall|ix: CurveInstruction| !carries(data@, ix),
        call_ensures(process_instruction, (program_id, accounts, data, rent), r) || call_ensures(
            try_process_instruction,
            (program_id, accounts, data, rent),
            Some(r),
        ),
    ensures
        refuses(r, ProgramError::BorshIoError),
{
    if sent_instruction(data@) is Some {
        let ix = sent_instruction(data@)->0;
        assert(instruction_bytes(ix) == data@);
        lemma_instruction_carried(ix);
    }
}

/// There is no answer just where a program could give none: where an address
/// that has to be derived does not exist, or where the fees of a buy or sell
/// whose accounts are in order would take more than everything.
pub proof fn law_what_is_left_unanswered(
    program_id: &Pubkey,
    accounts: &[Account],
    data: &[u8],
    rent: Result<u64, ProgramError>,
    ix: CurveInstruction,
    c: Curve,
    r: Option<Result<Pending, ProgramError>>,
)
    requires
        carries(data@, ix),
        accounts@.len() >= 2 && accounts@[1].data@.len() == 147 ==> holds_curve(
            accounts@[1].data@,
            c,
        ),
        call_ensures(try_process_instruction, (program_id, accounts, data, rent), r),
    ensures
        r is None <==> match ix {
            CurveInstruction::Initialize {
                start_price_fp,
                double_vol,
                buy_fee_creator_bps,
                buy_fee_floor_bps,
                sell_fee_creator_bps,
                sell_fee_floor_bps,
                min_backing_bps,
                ..
            } => {
                &&& accounts@.len() >= 4
                &&& accounts@[0].is_signer
                &&& accounts@[3].key.bytes@ == system_key()
                &&& keeps_caps(
                    LaunchCfg {
                        start_price_fp,
                        double_vol,
                        buy_fee_creator_bps,
                        buy_fee_floor_bps,
                        sell_fee_creator_bps,
                        sell_fee_floor_bps,
                        min_backing_bps,
                    },
                )
                &&& derived(program_id.bytes@, accounts@[2].key.bytes@) is None
            },
            CurveInstruction::Buy { lamports, .. } => leaves_unanswered(
                program_id.bytes@,
                accounts@,
                true,
                lamports,
                c,
                c.buy_fee_creator_bps + c.buy_fee_floor_bps,
            ),
            CurveInstruction::Sell { units, .. } => leaves_unanswered(
                program_id.bytes@,
                accounts@,
                false,
                units,
                c,
                c.sell_fee_creator_bps + c.sell_fee_floor_bps,
            ),
        },
{
    lemma_carried_is_written(data@, ix);
    lemma_instruction_round_trip(ix);
    lemma_system_key();
    assert(CURVE_SEED@ =~= curve_word());
    let (buying, amount) = match ix {
        CurveInstruction::Initialize { .. } => (false, 0u64),
        CurveInstruction::Buy { lamports, .. } => (true, lamports),
        CurveInstruction::Sell { units, .. } => (false, units),
    };
    if accounts@.len() >= 6 {
        let address = stored_address(program_id@, accounts@[1]);
        let e: Result<Curve, ProgramError> = trade_curve(
            program_id@,
            accounts@,
            buying,
            amount,
            address,
        );
        lemma_trade_checked(program_id@, accounts@, buying, amount, address, c, e);
        if accounts@[1].data@.len() == 147 {
            lemma_stored_address(program_id@, accounts@[1], c);
            lemma_held_is_stored(accounts@[1].data@, c);
        } else {
            lemma_stored_curve_held(accounts@[1].data@);
        }
    }
}

/// A trade has no answer, with `fees` the fees of its side.
pub open spec fn leaves_unanswered(
    program_id: Seq<u8>,
    accounts: Seq<Account>,
    buying: bool,
    amount: u64,
    c: Curve,
    fees: int,
) -> bool {
    let address = derived(program_id, c.mint.bytes@);
    &&& accounts.len() >= 6
    &&& buying ==> accounts.len() >= 7 && accounts[6].key.bytes@ == system_key()
    &&& accounts[0].is_signer
    &&& accounts[5].key.bytes@ == TOKEN_PROGRAM@
    &&& amount > 0
    &&& accounts[1].owner.bytes@ == program_id
    &&& accounts[1].data@.len() == 147
    &&& address is None || (fees > 10_000 && in_order(
        program_id,
        accounts,
        buying,
        amount,
        (address->0).0,
        c,
    ))
}

/// An accepted launch stores the creators, price and rates that the instruction
/// carries, each from its own place in the bytes.
pub proof fn law_launches_store_what_was_sent(
    program_id: &Pubkey,
    accounts: &[Account],
    data: &[u8],
    rent: Result<u64, ProgramError>,
    plan: InitializePlan,
)
    requires
        call_ensures(
            process_instruction,
            (program_id, accounts, data, rent),
            Ok(Pending::Initialize(plan)),
        ),
    ensures
        data@.len() == 99,
        data@[0] == 0,
        plan.curve.mint.bytes@ == accounts@[2].key.bytes@,
        plan.curve.buy_creator.bytes@ == bytes_at(data@, 1, 32),
        plan.curve.sell_creator.bytes@ == bytes_at(data@, 33, 32),
        plan.curve.price_fp == number_at(data@, 65, 16),
        plan.curve.double_vol == number_at(data@, 81, 8),
        plan.curve.buy_fee_creator_bps == number_at(data@, 89, 2),
        plan.curve.buy_fee_floor_bps == number_at(data@, 91, 2),
        plan.curve.sell_fee_creator_bps == number_at(data@, 93, 2),
        plan.curve.sell_fee_floor_bps == number_at(data@, 95, 2),
        plan.curve.min_backing_bps == number_at(data@, 97, 2),
{
    let ix = sent_instruction(data@)->0;
    assert(instruction_bytes(ix) == data@);
    lemma_instruction_carried(ix);
    let c: Curve = arbitrary();
    lemma_instruction_answered(
        program_id@,
        accounts@,
        data@,
        ix,
        rent,
        c,
        0,
        0,
        Ok(Pending::Initialize(plan)),
    );
}

/// A buy is decided on with the amount and minimum that the instruction carries,
/// and a sell with its own.
pub proof fn law_trades_are_those_sent(
    program_id: &Pubkey,
    accounts: &[Account],
    data: &[u8],
    rent: Result<u64, ProgramError>,
    pending: Pending,
)
    requires
        call_ensures(
            process_instruction,
            (program_id, accounts, data, rent),
            Ok::<Pending, ProgramError>(pending),
        ),
    ensures
        pending matches Pending::Buy(order) ==> {
            &&& data@.len() == 17
            &&& data@[0] == 1
            &&& order.split.creator_fee + order.split.donation + order.split.net == number_at(
                data@,
                1,
                8,
            )
            &&& order.min_out == number_at(data@, 9, 8)
        },
        pending matches Pending::Sell(order) ==> {
            &&& data@.len() == 17
            &&& data@[0] == 2
            &&& order.units == number_at(data@, 1, 8)
            &&& order.split.to_seller >= number_at(data@, 9, 8)
        },
{
    let ix = sent_instruction(data@)->0;
    assert(instruction_bytes(ix) == data@);
    lemma_instruction_carried(ix);
}

// ---------------------------------------------------------------------------
// Parts
// ---------------------------------------------------------------------------

/// A curve is loaded just where the program owns the account, it holds the
/// curve and stands at its address, and the mint is that of the curve.
pub proof fn law_curves_are_loaded(
    program_id: &Pubkey,
    curve_ai: &Account,
    mint_ai: &Account,
    expect: &Pubkey,
    c: Curve,
    at: Result<Curve, ProgramError>,
    derive: Result<Curve, ProgramError>,
)
    requires
        curve_ai.data@.len() == 147 ==> holds_curve(curve_ai.data@, c),
        call_ensures(load_curve_at, (program_id, curve_ai, mint_ai, expect), at),
        call_ensures(load_curve, (program_id, curve_ai, mint_ai), derive),
    ensures
        ({
            let owned = curve_ai.owner.bytes@ == program_id.bytes@;
            let stored = owned && curve_ai.data@.len() == 147;
            let placed = stored && mint_ai.key.bytes@ == c.mint.bytes@;
            let here = curve_ai.key.bytes@;
            &&& !owned ==> refuses_with(at, E_BAD_PDA) && refuses_with(derive, E_BAD_PDA)
            &&& owned && !stored ==> refuses(at, ProgramError::BorshIoError) && refuses(
                derive,
                ProgramError::BorshIoError,
            )
            &&& stored ==> if placed && here == expect.bytes@ {
                at == Ok::<Curve, ProgramError>(c)
            } else {
                refuses_with(at, E_BAD_PDA)
            }
            &&& stored ==> if placed && here == (derived(program_id.bytes@, c.mint.bytes@)->0).0 {
                derive == Ok::<Curve, ProgramError>(c)
            } else {
                refuses_with(derive, E_BAD_PDA)
            }
        }),
{
    if curve_ai.data@.len() == 147 {
        lemma_held_is_stored(curve_ai.data@, c);
        lemma_stored_address(program_id@, *curve_ai, c);
    } else {
        lemma_stored_curve_held(curve_ai.data@);
    }
}

/// The curve signs with the seeds that derive its address: the word `curve`, the
/// mint and the bump.
pub proof fn law_curves_sign_with_their_seeds(mint: &Pubkey, bump: u8, r: Vec<Vec<u8>>)
    requires
        call_ensures(signer_seeds, (mint, bump), r),
    ensures
        r@.len() == 3,
        r@[0]@ == curve_word(),
        r@[1]@ == mint.bytes@,
        r@[2]@ == seq![bump],
{
    let s = seed_bytes(r@);
    assert(CURVE_SEED@ =~= curve_word());
    assert(s.len() == r@.len());
    assert(s[0] == r@[0]@ && s[1] == r@[1]@ && s[2] == r@[2]@);
}

/// The token calls mint and burn what they are asked to.
pub proof fn law_token_calls_mint_and_burn(
    first: &Pubkey,
    second: &Pubkey,
    authority: &Pubkey,
    amount: u64,
    minting: Instruction,
    burning: Instruction,
)
    requires
        call_ensures(spl_mint_to, (first, second, authority, amount), minting),
        call_ensures(spl_burn, (first, second, authority, amount), burning),
    ensures
        is_mint_to(minting, first.bytes@, second.bytes@, authority.bytes@, amount as int),
        is_burn(burning, first.bytes@, second.bytes@, authority.bytes@, amount as int),
{
    lemma_mint_to_read(minting, first@, second@, authority@, amount);
    lemma_burn_read(burning, first@, second@, authority@, amount);
}

/// Callers tell refusals apart by their codes, which are fixed.
pub proof fn law_refusals_have_their_codes(code: u32, r: ProgramError)
    requires
        call_ensures(err, (code,), r),
    ensures
        r == ProgramError::Custom(code),
        E_BAD_PARAMS == 1,
        E_BAD_PDA == 2,
        E_BAD_MINT == 3,
        E_BAD_CREATOR == 4,
        E_SLIPPAGE == 5,
        E_BUY_TOO_LARGE == 6,
        E_INSUFFICIENT_VAULT == 7,
        E_OVERFLOW == 8,
        E_ALREADY_INIT == 9,
        E_ZERO_AMOUNT == 10,
        E_BAD_TOKEN_ACCOUNT == 11,
        E_CURVE_SATURATED == 12,
{
}

/// A configuration is allowed just where it keeps every cap.
pub proof fn law_caps_are_checked(cfg: &LaunchCfg, r: bool)
    requires
        call_ensures(LaunchCfg::is_allowed, (cfg,), r),
    ensures
        r <==> keeps_caps(*cfg),
{
}

/// Fees fit where those of one side together take at most everything.
pub proof fn law_fees_are_checked(curve: &Curve, buys: bool, sells: bool)
    requires
        call_ensures(Curve::check_fees, (curve, true), buys),
        call_ensures(Curve::check_fees, (curve, false), sells),
    ensures
        buys <==> curve.buy_fee_creator_bps + curve.buy_fee_floor_bps <= 10_000,
        sells <==> curve.sell_fee_creator_bps + curve.sell_fee_floor_bps <= 10_000,
{
}

/// An order can be settled unless it is the first and has no price or no
/// backing.
pub proof fn law_orders_can_be_settled(order: &BuyOrder, r: bool)
    requires
        call_ensures(BuyOrder::can_settle, (order,), r),
    ensures
        !r <==> order.supply == 0 && (order.curve.price_fp == 0 || order.curve.min_backing_bps
            == 0),
{
}

} // verus!
