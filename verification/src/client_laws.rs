//! What a wallet's instructions ask for, and that the program does what they
//! ask.
//!
//! A law here speaks of any instruction that a builder's contract allows. It
//! reads the accounts and the bytes.

use crate::address::PAYOUT_SEED;
use crate::bytes::{le_bytes, lemma_byte_powers, lemma_le_bytes_len};
use crate::client::{
    buy, buy_at, buy_ix, confirm_launch, create_ata_ix, create_ata_ix_at, create_ata_view,
    create_mint_ixs, create_mint_ixs_at, create_mint_views, cu_limit, initialize, initialize_at,
    initialize_ix, launch_ixs, launch_ixs_at, launch_of, launch_views, sell, sell_at, sell_ix,
    sell_via_payout, sell_via_payout_at, sell_via_payout_ix, try_buy, try_create_ata_ix,
    try_create_mint_ixs, try_initialize, try_launch_ixs, try_sell, try_sell_via_payout,
};
use crate::codec_laws::{
    bytes_at, carries, curve_word, holds_curve, lemma_held_is_stored, lemma_instruction_carried,
    lemma_number_within, lemma_stored_curve_held, number_at, payout_word,
};
use crate::error::{ProgramError, E_SLIPPAGE};
use crate::handler_laws::{
    above, derived, describes_trade, in_order, is_ready_mint, keeps_caps,
    law_instructions_are_answered, lemma_sell_divides, opens,
};
use crate::instruction::{Instruction, InstructionView};
use crate::key::{program_address, Pubkey};
use crate::ledger::{
    is_create_account, lemma_create_account_read, lemma_metas, lemma_system_key, names,
    system_key,
};
use crate::program::{process_instruction, Account, Pending};
use crate::program_ids::{
    compute_budget_program, ATA_PROGRAM, SYSTEM_PROGRAM, TOKEN_PROGRAM,
};
use crate::quote_laws::is_share;
use crate::state::{Curve, CurveInstruction, LaunchCfg, CURVE_SEED};
use vstd::prelude::*;

verus! {

/// The launch that a configuration asks for.
pub open spec fn asks_launch(
    ix: CurveInstruction,
    buy_creator: Pubkey,
    sell_creator: Pubkey,
    cfg: LaunchCfg,
) -> bool {
    ix matches CurveInstruction::Initialize {
        buy_creator: b,
        sell_creator: s,
        start_price_fp,
        double_vol,
        buy_fee_creator_bps,
        buy_fee_floor_bps,
        sell_fee_creator_bps,
        sell_fee_floor_bps,
        min_backing_bps,
    } && b == buy_creator && s == sell_creator && start_price_fp == cfg.start_price_fp && double_vol
        == cfg.double_vol && buy_fee_creator_bps == cfg.buy_fee_creator_bps && buy_fee_floor_bps
        == cfg.buy_fee_floor_bps && sell_fee_creator_bps == cfg.sell_fee_creator_bps
        && sell_fee_floor_bps == cfg.sell_fee_floor_bps && min_backing_bps == cfg.min_backing_bps
}

/// The instruction launches `mint`: the payer signs and pays, the curve's
/// account at `pda` is written, mint and System program are read, and the bytes
/// carry creators and configuration.
pub open spec fn is_launch(
    ix: Instruction,
    program_id: Seq<u8>,
    payer: Seq<u8>,
    buy_creator: Pubkey,
    sell_creator: Pubkey,
    mint: Seq<u8>,
    cfg: LaunchCfg,
    pda: Seq<u8>,
) -> bool {
    &&& ix.program_id.bytes@ == program_id
    &&& ix.accounts@.len() == 4
    &&& names(ix.accounts@[0], payer, true, true)
    &&& names(ix.accounts@[1], pda, false, true)
    &&& names(ix.accounts@[2], mint, false, false)
    &&& names(ix.accounts@[3], system_key(), false, false)
    &&& exists|sent: CurveInstruction|
        asks_launch(sent, buy_creator, sell_creator, cfg) && #[trigger] carries(ix.data@, sent)
}

/// A launch in the model is one by its bytes.
proof fn lemma_is_launch(
    ix: Instruction,
    program_id: Seq<u8>,
    payer: Seq<u8>,
    buy_creator: Pubkey,
    sell_creator: Pubkey,
    mint: Seq<u8>,
    cfg: LaunchCfg,
    pda: Seq<u8>,
)
    requires
        ix@ == initialize_ix(program_id, payer, buy_creator, sell_creator, mint, cfg, pda),
    ensures
        is_launch(ix, program_id, payer, buy_creator, sell_creator, mint, cfg, pda),
{
    lemma_metas(ix, initialize_ix(program_id, payer, buy_creator, sell_creator, mint, cfg, pda));
    lemma_system_key();
    let sent = launch_of(buy_creator, sell_creator, cfg);
    lemma_instruction_carried(sent);
    assert(names(ix.accounts@[0], payer, true, true) && names(ix.accounts@[1], pda, false, true)
        && names(ix.accounts@[2], mint, false, false) && names(
        ix.accounts@[3],
        system_key(),
        false,
        false,
    ));
    assert(asks_launch(sent, buy_creator, sell_creator, cfg) && carries(ix.data@, sent));
}

/// A built launch launches the mint, at the address that it derives.
pub proof fn law_launches_are_built(
    program_id: &Pubkey,
    payer: &Pubkey,
    buy_creator: &Pubkey,
    sell_creator: &Pubkey,
    mint: &Pubkey,
    cfg: &LaunchCfg,
    pda: &Pubkey,
    at: Instruction,
    built: Instruction,
    tried: Option<Instruction>,
)
    requires
        call_ensures(
            initialize_at,
            (program_id, payer, buy_creator, sell_creator, mint, cfg, pda),
            at,
        ),
        call_ensures(initialize, (program_id, payer, buy_creator, sell_creator, mint, cfg), built),
        call_ensures(
            try_initialize,
            (program_id, payer, buy_creator, sell_creator, mint, cfg),
            tried,
        ),
    ensures
        ({
            let (p, a, m) = (program_id.bytes@, payer.bytes@, mint.bytes@);
            let found = (derived(p, m)->0).0;
            let (b, s) = (*buy_creator, *sell_creator);
            &&& is_launch(at, p, a, b, s, m, *cfg, pda.bytes@)
            &&& is_launch(built, p, a, b, s, m, *cfg, found)
            &&& tried is Some <==> derived(p, m) is Some
            &&& tried matches Some(ix) ==> is_launch(ix, p, a, b, s, m, *cfg, found)
        }),
{
    assert(CURVE_SEED@ =~= curve_word());
    let (p, a, m) = (program_id@, payer@, mint@);
    let (b, s) = (*buy_creator, *sell_creator);
    let found = (derived(p, m)->0).0;
    lemma_is_launch(at, p, a, b, s, m, *cfg, pda@);
    lemma_is_launch(built, p, a, b, s, m, *cfg, found);
    if tried is Some {
        lemma_is_launch(tried->0, p, a, b, s, m, *cfg, found);
    }
}

// ---------------------------------------------------------------------------
// Trades
// ---------------------------------------------------------------------------

/// The instruction trades on `mint`: the trader signs, the accounts that change
/// are written, and the bytes carry what is asked for. A buy names the System
/// program too; a sell may name a payout account and it.
pub open spec fn is_trade(
    ix: Instruction,
    program_id: Seq<u8>,
    trader: Seq<u8>,
    mint: Seq<u8>,
    creator: Seq<u8>,
    sent: CurveInstruction,
    pda: Seq<u8>,
    account: Seq<u8>,
    payout: Option<Seq<u8>>,
) -> bool {
    let n: int = 6 + (if payout is Some {
        1int
    } else {
        0
    }) + (if sent is Buy || payout is Some {
        1int
    } else {
        0
    });
    &&& ix.program_id.bytes@ == program_id
    &&& ix.accounts@.len() == n
    &&& names(ix.accounts@[0], trader, true, true)
    &&& names(ix.accounts@[1], pda, false, true)
    &&& names(ix.accounts@[2], mint, false, true)
    &&& names(ix.accounts@[3], account, false, true)
    &&& names(ix.accounts@[4], creator, false, true)
    &&& names(ix.accounts@[5], TOKEN_PROGRAM@, false, false)
    &&& payout matches Some(k) ==> names(ix.accounts@[6], k, false, true)
    &&& n > 6 ==> names(ix.accounts@[n - 1], system_key(), false, false)
    &&& carries(ix.data@, sent)
}

/// A trade in the model is one by its bytes.
proof fn lemma_is_trade(
    ix: Instruction,
    view: InstructionView,
    program_id: Seq<u8>,
    trader: Seq<u8>,
    mint: Seq<u8>,
    creator: Seq<u8>,
    sent: CurveInstruction,
    pda: Seq<u8>,
    account: Seq<u8>,
    payout: Option<Seq<u8>>,
)
    requires
        ix@ == view,
        sent is Buy ==> payout is None,
        view == (match sent {
            CurveInstruction::Buy { lamports, min_out } => buy_ix(
                program_id,
                trader,
                mint,
                creator,
                lamports,
                min_out,
                pda,
                account,
            ),
            CurveInstruction::Sell { units, min_out } => match payout {
                Some(k) => sell_via_payout_ix(
                    program_id,
                    trader,
                    mint,
                    creator,
                    units,
                    min_out,
                    pda,
                    account,
                    k,
                ),
                None => sell_ix(
                    program_id,
                    trader,
                    mint,
                    creator,
                    units,
                    min_out,
                    pda,
                    account,
                ),
            },
            _ => view,
        }),
        !(sent is Initialize),
    ensures
        is_trade(ix, program_id, trader, mint, creator, sent, pda, account, payout),
{
    lemma_metas(ix, view);
    lemma_system_key();
    lemma_instruction_carried(sent);
    let n = view.accounts.len() as int;
    assert(names(ix.accounts@[0], trader, true, true) && names(ix.accounts@[1], pda, false, true)
        && names(ix.accounts@[2], mint, false, true) && names(
        ix.accounts@[3],
        account,
        false,
        true,
    ) && names(ix.accounts@[4], creator, false, true) && names(
        ix.accounts@[5],
        TOKEN_PROGRAM@,
        false,
        false,
    ));
    if n > 6 {
        assert(view.accounts[n - 1].key == SYSTEM_PROGRAM@);
        assert(names(ix.accounts@[n - 1], system_key(), false, false));
    }
    if payout is Some {
        assert(names(ix.accounts@[6], payout->0, false, true));
    }
}

/// The address of an owner's token account for a mint.
pub open spec fn derived_account(owner: Seq<u8>, mint: Seq<u8>) -> Option<(Seq<u8>, u8)> {
    program_address(seq![owner, TOKEN_PROGRAM@, mint], ATA_PROGRAM@)
}

/// The address of a program's payout account.
pub open spec fn derived_payout(program_id: Seq<u8>) -> Option<(Seq<u8>, u8)> {
    program_address(seq![payout_word()], program_id)
}

/// A built buy asks for just the lamports and the minimum that it was given, at
/// the addresses that are derived.
pub proof fn law_buys_are_built(
    program_id: &Pubkey,
    buyer: &Pubkey,
    mint: &Pubkey,
    creator: &Pubkey,
    lamports: u64,
    min_out: u64,
    pda: &Pubkey,
    account: &Pubkey,
    at: Instruction,
    built: Instruction,
    tried: Option<Instruction>,
)
    requires
        call_ensures(
            buy_at,
            (program_id, buyer, mint, creator, lamports, min_out, pda, account),
            at,
        ),
        call_ensures(buy, (program_id, buyer, mint, creator, lamports, min_out), built),
        call_ensures(try_buy, (program_id, buyer, mint, creator, lamports, min_out), tried),
    ensures
        ({
            let (p, b, m, k) = (program_id.bytes@, buyer.bytes@, mint.bytes@, creator.bytes@);
            let sent = CurveInstruction::Buy { lamports, min_out };
            let (found, held) = ((derived(p, m)->0).0, (derived_account(b, m)->0).0);
            &&& is_trade(at, p, b, m, k, sent, pda.bytes@, account.bytes@, None)
            &&& is_trade(built, p, b, m, k, sent, found, held, None)
            &&& tried is Some <==> derived(p, m) is Some && derived_account(b, m) is Some
            &&& tried matches Some(ix) ==> is_trade(ix, p, b, m, k, sent, found, held, None)
        }),
{
    assert(CURVE_SEED@ =~= curve_word());
    let (p, b, m, k) = (program_id@, buyer@, mint@, creator@);
    let sent = CurveInstruction::Buy { lamports, min_out };
    let (found, held) = ((derived(p, m)->0).0, (derived_account(b, m)->0).0);
    lemma_is_trade(at, at@, p, b, m, k, sent, pda@, account@, None);
    lemma_is_trade(built, built@, p, b, m, k, sent, found, held, None);
    if tried is Some {
        lemma_is_trade(tried->0, (tried->0)@, p, b, m, k, sent, found, held, None);
    }
}

/// A built sell asks for just the units and the minimum that it was given, at
/// the addresses that are derived.
pub proof fn law_sells_are_built(
    program_id: &Pubkey,
    seller: &Pubkey,
    mint: &Pubkey,
    creator: &Pubkey,
    units: u64,
    min_out: u64,
    pda: &Pubkey,
    account: &Pubkey,
    at: Instruction,
    built: Instruction,
    tried: Option<Instruction>,
)
    requires
        call_ensures(
            sell_at,
            (program_id, seller, mint, creator, units, min_out, pda, account),
            at,
        ),
        call_ensures(sell, (program_id, seller, mint, creator, units, min_out), built),
        call_ensures(try_sell, (program_id, seller, mint, creator, units, min_out), tried),
    ensures
        ({
            let (p, b, m, k) = (program_id.bytes@, seller.bytes@, mint.bytes@, creator.bytes@);
            let sent = CurveInstruction::Sell { units, min_out };
            let (found, held) = ((derived(p, m)->0).0, (derived_account(b, m)->0).0);
            &&& is_trade(at, p, b, m, k, sent, pda.bytes@, account.bytes@, None)
            &&& is_trade(built, p, b, m, k, sent, found, held, None)
            &&& tried is Some <==> derived(p, m) is Some && derived_account(b, m) is Some
            &&& tried matches Some(ix) ==> is_trade(ix, p, b, m, k, sent, found, held, None)
        }),
{
    assert(CURVE_SEED@ =~= curve_word());
    let (p, b, m, k) = (program_id@, seller@, mint@, creator@);
    let sent = CurveInstruction::Sell { units, min_out };
    let (found, held) = ((derived(p, m)->0).0, (derived_account(b, m)->0).0);
    lemma_is_trade(at, at@, p, b, m, k, sent, pda@, account@, None);
    lemma_is_trade(built, built@, p, b, m, k, sent, found, held, None);
    if tried is Some {
        lemma_is_trade(tried->0, (tried->0)@, p, b, m, k, sent, found, held, None);
    }
}

/// A built sell with a payout account is that sell, naming that account and the
/// System program too.
pub proof fn law_sells_via_payout_are_built(
    program_id: &Pubkey,
    seller: &Pubkey,
    mint: &Pubkey,
    creator: &Pubkey,
    units: u64,
    min_out: u64,
    pda: &Pubkey,
    account: &Pubkey,
    payout: &Pubkey,
    at: Instruction,
    built: Instruction,
    tried: Option<Instruction>,
)
    requires
        call_ensures(
            sell_via_payout_at,
            (program_id, seller, mint, creator, units, min_out, pda, account, payout),
            at,
        ),
        call_ensures(sell_via_payout, (program_id, seller, mint, creator, units, min_out), built),
        call_ensures(
            try_sell_via_payout,
            (program_id, seller, mint, creator, units, min_out),
            tried,
        ),
    ensures
        ({
            let (p, b, m, k) = (program_id.bytes@, seller.bytes@, mint.bytes@, creator.bytes@);
            let sent = CurveInstruction::Sell { units, min_out };
            let (found, held) = ((derived(p, m)->0).0, (derived_account(b, m)->0).0);
            let out = Some((derived_payout(p)->0).0);
            &&& is_trade(at, p, b, m, k, sent, pda.bytes@, account.bytes@, Some(payout.bytes@))
            &&& is_trade(built, p, b, m, k, sent, found, held, out)
            &&& tried is Some <==> derived(p, m) is Some && derived_account(b, m) is Some
                && derived_payout(p) is Some
            &&& tried matches Some(ix) ==> is_trade(ix, p, b, m, k, sent, found, held, out)
        }),
{
    assert(CURVE_SEED@ =~= curve_word());
    assert(PAYOUT_SEED@ =~= payout_word());
    let (p, b, m, k) = (program_id@, seller@, mint@, creator@);
    let sent = CurveInstruction::Sell { units, min_out };
    let (found, held) = ((derived(p, m)->0).0, (derived_account(b, m)->0).0);
    let out = Some((derived_payout(p)->0).0);
    lemma_is_trade(at, at@, p, b, m, k, sent, pda@, account@, Some(payout@));
    lemma_is_trade(built, built@, p, b, m, k, sent, found, held, out);
    if tried is Some {
        lemma_is_trade(tried->0, (tried->0)@, p, b, m, k, sent, found, held, out);
    }
}

// ---------------------------------------------------------------------------
// Mints and token accounts
// ---------------------------------------------------------------------------

/// The instructions create `mint` as an SPL mint with its rent, of nine
/// decimals, which `pda` alone may mint and nobody may freeze.
pub open spec fn create_mint(
    ixs: Seq<Instruction>,
    payer: Seq<u8>,
    mint: Seq<u8>,
    mint_rent: u64,
    pda: Seq<u8>,
) -> bool {
    let data = ixs[1].data@;
    &&& ixs.len() >= 2
    &&& is_create_account(ixs[0], payer, mint, mint_rent as int, 82, TOKEN_PROGRAM@)
    &&& ixs[1].program_id.bytes@ == TOKEN_PROGRAM@
    &&& ixs[1].accounts@.len() == 1
    &&& names(ixs[1].accounts@[0], mint, false, true)
    &&& data.len() == 35
    &&& data[0] == 20
    &&& data[1] == 9
    &&& bytes_at(data, 2, 32) == pda
    &&& data[34] == 0
}

/// The creation in the model is one by its bytes.
proof fn lemma_create_mint(
    ixs: Seq<Instruction>,
    payer: Seq<u8>,
    mint: Seq<u8>,
    mint_rent: u64,
    pda: Seq<u8>,
)
    requires
        ixs.len() >= 2,
        pda.len() == 32,
        ixs[0]@ == create_mint_views(payer, mint, mint_rent, pda)[0],
        ixs[1]@ == create_mint_views(payer, mint, mint_rent, pda)[1],
    ensures
        create_mint(ixs, payer, mint, mint_rent, pda),
{
    lemma_create_account_read(ixs[0], payer, mint, mint_rent, 82, TOKEN_PROGRAM@);
    lemma_metas(ixs[1], create_mint_views(payer, mint, mint_rent, pda)[1]);
    assert(names(ixs[1].accounts@[0], mint, false, true));
    assert(bytes_at(ixs[1].data@, 2, 32) =~= pda);
}

/// One by one, the instructions are those in the model.
proof fn lemma_each(ixs: Seq<Instruction>, views: Seq<InstructionView>)
    requires
        ixs.map_values(|ix: Instruction| ix@) == views,
    ensures
        ixs.len() == views.len(),
        forall|i: int| 0 <= i < ixs.len() ==> (#[trigger] ixs[i])@ == views[i],
{
    assert forall|i: int| 0 <= i < ixs.len() implies (#[trigger] ixs[i])@ == views[i] by {
        assert(ixs.map_values(|ix: Instruction| ix@)[i] == ixs[i]@);
    }
}

/// A mint is created under a given address.
pub proof fn law_mints_are_created_at(
    payer: &Pubkey,
    mint: &Pubkey,
    mint_rent: u64,
    pda: &Pubkey,
    r: Vec<Instruction>,
)
    requires
        call_ensures(create_mint_ixs_at, (payer, mint, mint_rent, pda), r),
    ensures
        r@.len() == 2,
        create_mint(r@, payer.bytes@, mint.bytes@, mint_rent, pda.bytes@),
{
    lemma_each(r@, create_mint_views(payer@, mint@, mint_rent, pda@));
    lemma_create_mint(r@, payer@, mint@, mint_rent, pda@);
}

/// A mint is created under the curve whose address it derives.
pub proof fn law_mints_are_created(
    program_id: &Pubkey,
    payer: &Pubkey,
    mint: &Pubkey,
    mint_rent: u64,
    built: Vec<Instruction>,
    tried: Option<Vec<Instruction>>,
)
    requires
        derived(program_id.bytes@, mint.bytes@) matches Some((k, _)) ==> k.len() == 32,
        call_ensures(create_mint_ixs, (program_id, payer, mint, mint_rent), built),
        call_ensures(try_create_mint_ixs, (program_id, payer, mint, mint_rent), tried),
    ensures
        ({
            let found = derived(program_id.bytes@, mint.bytes@);
            &&& found is Some ==> built@.len() == 2 && create_mint(
                built@,
                payer.bytes@,
                mint.bytes@,
                mint_rent,
                (found->0).0,
            )
            &&& tried is Some <==> found is Some
            &&& tried matches Some(ixs) ==> ixs@.len() == 2 && create_mint(
                ixs@,
                payer.bytes@,
                mint.bytes@,
                mint_rent,
                (found->0).0,
            )
        }),
{
    assert(CURVE_SEED@ =~= curve_word());
    let found = derived(program_id@, mint@);
    if found is Some {
        let views = create_mint_views(payer@, mint@, mint_rent, (found->0).0);
        lemma_each(built@, views);
        lemma_create_mint(built@, payer@, mint@, mint_rent, (found->0).0);
        if tried is Some {
            lemma_each((tried->0)@, views);
            lemma_create_mint((tried->0)@, payer@, mint@, mint_rent, (found->0).0);
        }
    }
}

/// The instruction creates the token account `account` of `owner` for `mint`,
/// unless it exists.
pub open spec fn creates_account(
    ix: Instruction,
    payer: Seq<u8>,
    owner: Seq<u8>,
    mint: Seq<u8>,
    account: Seq<u8>,
) -> bool {
    &&& ix.program_id.bytes@ == ATA_PROGRAM@
    &&& ix.data@ == seq![1u8]
    &&& ix.accounts@.len() == 6
    &&& names(ix.accounts@[0], payer, true, true)
    &&& names(ix.accounts@[1], account, false, true)
    &&& names(ix.accounts@[2], owner, false, false)
    &&& names(ix.accounts@[3], mint, false, false)
    &&& names(ix.accounts@[4], system_key(), false, false)
    &&& names(ix.accounts@[5], TOKEN_PROGRAM@, false, false)
}

/// The creation in the model is one by its bytes.
proof fn lemma_creates_account(
    ix: Instruction,
    payer: Seq<u8>,
    owner: Seq<u8>,
    mint: Seq<u8>,
    account: Seq<u8>,
)
    requires
        ix@ == create_ata_view(payer, owner, mint, account),
    ensures
        creates_account(ix, payer, owner, mint, account),
{
    lemma_metas(ix, create_ata_view(payer, owner, mint, account));
    lemma_system_key();
    assert(names(ix.accounts@[0], payer, true, true) && names(
        ix.accounts@[1],
        account,
        false,
        true,
    ) && names(ix.accounts@[2], owner, false, false) && names(
        ix.accounts@[3],
        mint,
        false,
        false,
    ) && names(ix.accounts@[4], system_key(), false, false) && names(
        ix.accounts@[5],
        TOKEN_PROGRAM@,
        false,
        false,
    ));
}

/// A token account is created at the address that its owner and mint derive.
pub proof fn law_token_accounts_are_created(
    payer: &Pubkey,
    owner: &Pubkey,
    mint: &Pubkey,
    account: &Pubkey,
    at: Instruction,
    built: Instruction,
    tried: Option<Instruction>,
)
    requires
        call_ensures(create_ata_ix_at, (payer, owner, mint, account), at),
        call_ensures(create_ata_ix, (payer, owner, mint), built),
        call_ensures(try_create_ata_ix, (payer, owner, mint), tried),
    ensures
        ({
            let (p, o, m) = (payer.bytes@, owner.bytes@, mint.bytes@);
            let held = (derived_account(o, m)->0).0;
            &&& creates_account(at, p, o, m, account.bytes@)
            &&& creates_account(built, p, o, m, held)
            &&& tried is Some <==> derived_account(o, m) is Some
            &&& tried matches Some(ix) ==> creates_account(ix, p, o, m, held)
        }),
{
    let held = (derived_account(owner@, mint@)->0).0;
    lemma_creates_account(at, payer@, owner@, mint@, account@);
    lemma_creates_account(built, payer@, owner@, mint@, held);
    if tried is Some {
        lemma_creates_account(tried->0, payer@, owner@, mint@, held);
    }
}

/// A whole launch creates the mint under the curve's address and then launches
/// it, in this order and with nothing else.
pub open spec fn launches(
    ixs: Seq<Instruction>,
    program_id: Seq<u8>,
    payer: Seq<u8>,
    buy_creator: Pubkey,
    sell_creator: Pubkey,
    mint: Seq<u8>,
    mint_rent: u64,
    cfg: LaunchCfg,
    pda: Seq<u8>,
) -> bool {
    &&& ixs.len() == 3
    &&& create_mint(ixs, payer, mint, mint_rent, pda)
    &&& is_launch(ixs[2], program_id, payer, buy_creator, sell_creator, mint, cfg, pda)
}

/// A whole launch in the model is one by its bytes.
proof fn lemma_launches(
    ixs: Seq<Instruction>,
    program_id: Seq<u8>,
    payer: Seq<u8>,
    buy_creator: Pubkey,
    sell_creator: Pubkey,
    mint: Seq<u8>,
    mint_rent: u64,
    cfg: LaunchCfg,
    pda: Seq<u8>,
)
    requires
        pda.len() == 32,
        ixs.map_values(|ix: Instruction| ix@) == launch_views(
            program_id,
            payer,
            buy_creator,
            sell_creator,
            mint,
            mint_rent,
            cfg,
            pda,
        ),
    ensures
        launches(
            ixs,
            program_id,
            payer,
            buy_creator,
            sell_creator,
            mint,
            mint_rent,
            cfg,
            pda,
        ),
{
    let views = launch_views(
        program_id,
        payer,
        buy_creator,
        sell_creator,
        mint,
        mint_rent,
        cfg,
        pda,
    );
    lemma_each(ixs, views);
    assert(ixs[0]@ == views[0] && ixs[1]@ == views[1] && ixs[2]@ == views[2]);
    lemma_create_mint(ixs, payer, mint, mint_rent, pda);
    lemma_is_launch(ixs[2], program_id, payer, buy_creator, sell_creator, mint, cfg, pda);
}

/// A whole launch is built at the address that the mint derives, or at a given
/// one.
pub proof fn law_whole_launches_are_built(
    program_id: &Pubkey,
    payer: &Pubkey,
    buy_creator: &Pubkey,
    sell_creator: &Pubkey,
    mint: &Pubkey,
    mint_rent: u64,
    cfg: &LaunchCfg,
    pda: &Pubkey,
    at: Vec<Instruction>,
    built: Vec<Instruction>,
    tried: Option<Vec<Instruction>>,
)
    requires
        derived(program_id.bytes@, mint.bytes@) matches Some((k, _)) ==> k.len() == 32,
        call_ensures(
            launch_ixs_at,
            (program_id, payer, buy_creator, sell_creator, mint, mint_rent, cfg, pda),
            at,
        ),
        call_ensures(
            launch_ixs,
            (program_id, payer, buy_creator, sell_creator, mint, mint_rent, cfg),
            built,
        ),
        call_ensures(
            try_launch_ixs,
            (program_id, payer, buy_creator, sell_creator, mint, mint_rent, cfg),
            tried,
        ),
    ensures
        ({
            let (p, a, m) = (program_id.bytes@, payer.bytes@, mint.bytes@);
            let (b, s) = (*buy_creator, *sell_creator);
            let found = derived(p, m);
            &&& launches(at@, p, a, b, s, m, mint_rent, *cfg, pda.bytes@)
            &&& found is Some ==> launches(
                built@,
                p,
                a,
                b,
                s,
                m,
                mint_rent,
                *cfg,
                (found->0).0,
            )
            &&& tried is Some <==> found is Some
            &&& tried matches Some(ixs) ==> launches(
                ixs@,
                p,
                a,
                b,
                s,
                m,
                mint_rent,
                *cfg,
                (found->0).0,
            )
        }),
{
    assert(CURVE_SEED@ =~= curve_word());
    let (p, a, m) = (program_id@, payer@, mint@);
    let (b, s) = (*buy_creator, *sell_creator);
    let found = derived(p, m);
    lemma_launches(at@, p, a, b, s, m, mint_rent, *cfg, pda@);
    if found is Some {
        lemma_launches(built@, p, a, b, s, m, mint_rent, *cfg, (found->0).0);
        if tried is Some {
            lemma_launches((tried->0)@, p, a, b, s, m, mint_rent, *cfg, (found->0).0);
        }
    }
}

/// A launch is confirmed just where the bytes hold a curve of this mint and
/// these creators, and by that curve.
pub proof fn law_launches_are_confirmed(
    data: &[u8],
    mint: &Pubkey,
    buy_creator: &Pubkey,
    sell_creator: &Pubkey,
    c: Curve,
    r: Option<Curve>,
)
    requires
        call_ensures(confirm_launch, (data, mint, buy_creator, sell_creator), r),
        data@.len() == 147 ==> holds_curve(data@, c),
    ensures
        data@.len() != 147 ==> r is None,
        data@.len() == 147 ==> r == if c.mint.bytes@ == mint.bytes@ && c.buy_creator.bytes@
            == buy_creator.bytes@ && c.sell_creator.bytes@ == sell_creator.bytes@ {
            Some(c)
        } else {
            None
        },
{
    if data@.len() == 147 {
        lemma_held_is_stored(data@, c);
    } else {
        lemma_stored_curve_held(data@);
    }
}

/// A compute budget is asked for with just the units that it was given.
pub proof fn law_compute_is_asked_for(units: u32, program: Pubkey, r: Instruction)
    requires
        call_ensures(cu_limit, (units,), r),
        call_ensures(compute_budget_program, (), program),
    ensures
        r.program_id.bytes@ == program.bytes@,
        r.accounts@.len() == 0,
        r.data@.len() == 5,
        r.data@[0] == 2,
        number_at(r.data@, 1, 4) == units,
{
    lemma_metas(r, r@);
    lemma_byte_powers();
    lemma_le_bytes_len(units as nat, 4);
    assert(r.data@.subrange(1, 5) =~= le_bytes(units as nat, 4));
    lemma_number_within(r.data@, 1, units as nat, 4);
}

// ---------------------------------------------------------------------------
// From wallet to program
// ---------------------------------------------------------------------------

/// The runtime hands the program what the instruction names: the accounts in
/// order, with their signatures, and the bytes.
pub open spec fn hands_over(ix: Instruction, accounts: Seq<Account>, data: Seq<u8>) -> bool {
    &&& data == ix.data@
    &&& accounts.len() == ix.accounts@.len()
    &&& forall|i: int|
        0 <= i < accounts.len() ==> (#[trigger] accounts[i]).key.bytes@
            == ix.accounts@[i].pubkey.bytes@ && accounts[i].is_signer == ix.accounts@[i].is_signer
}

/// A built launch of a ready mint inside the caps is accepted, and stores just
/// the creators and the configuration that it was built with.
pub proof fn law_built_launches_open(
    program_id: &Pubkey,
    payer: &Pubkey,
    buy_creator: &Pubkey,
    sell_creator: &Pubkey,
    mint: &Pubkey,
    cfg: &LaunchCfg,
    ix: Instruction,
    accounts: &[Account],
    data: &[u8],
    rent: u64,
    r: Result<Pending, ProgramError>,
)
    requires
        call_ensures(initialize, (program_id, payer, buy_creator, sell_creator, mint, cfg), ix),
        hands_over(ix, accounts@, data@),
        call_ensures(process_instruction, (program_id, accounts, data, Ok(rent)), r),
        keeps_caps(*cfg),
        accounts@[1].data@.len() == 0,
        accounts@[1].owner.bytes@ != program_id.bytes@,
        is_ready_mint(accounts@[2], (derived(program_id.bytes@, mint.bytes@)->0).0),
    ensures
        r matches Ok(Pending::Initialize(plan)) && opens(
            plan.curve,
            mint.bytes@,
            *buy_creator,
            *sell_creator,
            *cfg,
            (derived(program_id.bytes@, mint.bytes@)->0).1,
        ),
{
    assert(CURVE_SEED@ =~= curve_word());
    let (p, m) = (program_id@, mint@);
    let pda = (derived(p, m)->0).0;
    lemma_is_launch(ix, p, payer@, *buy_creator, *sell_creator, m, *cfg, pda);
    let sent = choose|sent: CurveInstruction|
        asks_launch(sent, *buy_creator, *sell_creator, *cfg) && #[trigger] carries(ix.data@, sent);
    let c: Curve = arbitrary();
    law_instructions_are_answered(
        program_id,
        accounts,
        data,
        Ok(rent),
        sent,
        c,
        0,
        0,
        r,
    );
    assert(accounts@[0].is_signer && accounts@[1].key.bytes@ == pda && accounts@[2].key.bytes@ == m
        && accounts@[3].key.bytes@ == system_key());
}

/// A built trade on a stored curve is in order.
proof fn lemma_built_in_order(
    ix: Instruction,
    program_id: Seq<u8>,
    trader: Seq<u8>,
    c: Curve,
    sent: CurveInstruction,
    pda: Seq<u8>,
    account: Seq<u8>,
    payout: Option<Seq<u8>>,
    accounts: Seq<Account>,
    data: Seq<u8>,
    amount: u64,
)
    requires
        sent is Buy || sent is Sell,
        is_trade(
            ix,
            program_id,
            trader,
            c.mint.bytes@,
            if sent is Buy {
                c.buy_creator.bytes@
            } else {
                c.sell_creator.bytes@
            },
            sent,
            pda,
            account,
            payout,
        ),
        sent is Buy ==> payout is None,
        hands_over(ix, accounts, data),
        amount > 0,
        accounts[1].owner.bytes@ == program_id,
        holds_curve(accounts[1].data@, c),
        accounts[3].data@.len() >= 72,
        bytes_at(accounts[3].data@, 0, 32) == c.mint.bytes@,
    ensures
        in_order(program_id, accounts, sent is Buy, amount, pda, c),
{
    assert(accounts[0].is_signer && accounts[1].key.bytes@ == pda && accounts[2].key.bytes@
        == c.mint.bytes@ && accounts[5].key.bytes@ == TOKEN_PROGRAM@);
    assert(accounts[4].key.bytes@ == if sent is Buy {
        c.buy_creator.bytes@
    } else {
        c.sell_creator.bytes@
    });
    if sent is Buy {
        assert(accounts[6].key.bytes@ == system_key());
    }
}

/// A built buy on a stored curve, naming its creator, is ordered with just the
/// lamports and the minimum that it was built with, wherever it mints at all.
pub proof fn law_built_buys_are_ordered(
    program_id: &Pubkey,
    buyer: &Pubkey,
    c: Curve,
    lamports: u64,
    min_out: u64,
    fee: int,
    donation: int,
    ix: Instruction,
    accounts: &[Account],
    data: &[u8],
    rent: u64,
    r: Result<Pending, ProgramError>,
)
    requires
        call_ensures(
            buy,
            (program_id, buyer, &c.mint, &c.buy_creator, lamports, min_out),
            ix,
        ),
        hands_over(ix, accounts@, data@),
        call_ensures(process_instruction, (program_id, accounts, data, Ok(rent)), r),
        accounts@[1].owner.bytes@ == program_id.bytes@,
        holds_curve(accounts@[1].data@, c),
        accounts@[2].data@.len() >= 82,
        accounts@[3].data@.len() >= 72,
        bytes_at(accounts@[3].data@, 0, 32) == c.mint.bytes@,
        c.buy_fee_creator_bps + c.buy_fee_floor_bps <= 10_000,
        is_share(fee, lamports as int, c.buy_fee_creator_bps),
        is_share(donation, lamports as int, c.buy_fee_floor_bps),
        fee + donation < lamports,
    ensures
        r matches Ok(Pending::Buy(order)) && order.min_out == min_out && order.split.creator_fee
            == fee && order.split.donation == donation && order.split.net + fee + donation
            == lamports && order.curve == c,
{
    assert(CURVE_SEED@ =~= curve_word());
    let (p, b, m) = (program_id@, buyer@, c.mint@);
    let sent = CurveInstruction::Buy { lamports, min_out };
    let (found, held) = ((derived(p, m)->0).0, (derived_account(b, m)->0).0);
    lemma_is_trade(ix, ix@, p, b, m, c.buy_creator@, sent, found, held, None);
    assert(fee + donation >= 0) by (nonlinear_arith)
        requires
            is_share(fee, lamports as int, c.buy_fee_creator_bps),
            is_share(donation, lamports as int, c.buy_fee_floor_bps),
    ;
    lemma_built_in_order(
        ix,
        p,
        b,
        c,
        sent,
        found,
        held,
        None,
        accounts@,
        data@,
        lamports,
    );
    assert(describes_trade(accounts@, sent, c, fee, donation));
    law_instructions_are_answered(
        program_id,
        accounts,
        data,
        Ok(rent),
        sent,
        c,
        fee,
        donation,
        r,
    );
}

/// A built sell of units that exist, on a stored curve and naming its creator,
/// is ordered with just the units that it was built with, unless it pays less
/// than asked for.
pub proof fn law_built_sells_are_ordered(
    program_id: &Pubkey,
    seller: &Pubkey,
    c: Curve,
    units: u64,
    min_out: u64,
    ix: Instruction,
    accounts: &[Account],
    data: &[u8],
    rent: u64,
    r: Result<Pending, ProgramError>,
)
    requires
        call_ensures(
            sell,
            (program_id, seller, &c.mint, &c.sell_creator, units, min_out),
            ix,
        ) || call_ensures(
            sell_via_payout,
            (program_id, seller, &c.mint, &c.sell_creator, units, min_out),
            ix,
        ),
        hands_over(ix, accounts@, data@),
        call_ensures(process_instruction, (program_id, accounts, data, Ok(rent)), r),
        accounts@[1].owner.bytes@ == program_id.bytes@,
        holds_curve(accounts@[1].data@, c),
        accounts@[2].data@.len() >= 82,
        0 < units <= number_at(accounts@[2].data@, 36, 8),
        accounts@[3].data@.len() >= 72,
        bytes_at(accounts@[3].data@, 0, 32) == c.mint.bytes@,
        c.buy_fee_creator_bps + c.buy_fee_floor_bps <= 10_000,
    ensures
        match r {
            Ok(Pending::Sell(order)) => order.units == units && order.split.to_seller >= min_out,
            Ok(_) => false,
            Err(e) => e == ProgramError::Custom(E_SLIPPAGE),
        },
{
    assert(CURVE_SEED@ =~= curve_word());
    assert(PAYOUT_SEED@ =~= payout_word());
    let (p, b, m) = (program_id@, seller@, c.mint@);
    let sent = CurveInstruction::Sell { units, min_out };
    let (found, held) = ((derived(p, m)->0).0, (derived_account(b, m)->0).0);
    let payout = if call_ensures(
        sell,
        (program_id, seller, &c.mint, &c.sell_creator, units, min_out),
        ix,
    ) {
        None
    } else {
        Some((derived_payout(p)->0).0)
    };
    lemma_is_trade(ix, ix@, p, b, m, c.sell_creator@, sent, found, held, payout);
    lemma_built_in_order(
        ix,
        p,
        b,
        c,
        sent,
        found,
        held,
        payout,
        accounts@,
        data@,
        units,
    );
    assert(describes_trade(accounts@, sent, c, 0, 0));
    law_instructions_are_answered(program_id, accounts, data, Ok(rent), sent, c, 0, 0, r);
    lemma_sell_divides(
        c,
        above(accounts@[1].lamports, rent),
        number_at(accounts@[2].data@, 36, 8) as int,
        units as int,
    );
}

} // verus!
