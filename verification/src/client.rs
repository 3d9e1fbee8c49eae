//! Builders of the instructions that a wallet sends.
//!
//! Each comes in three forms: one that takes the derived addresses, one that
//! derives them, and one that answers `None` where an address does not exist.

use crate::address::{
    ata, ata_address, curve_address, curve_pda, payout_address, payout_pda, try_ata,
    try_curve_pda, try_payout_pda,
};
use crate::bytes::{le_bytes, push_le};
use crate::instruction::{
    create_account, readonly, system_create_account, writable, AccountMeta, Instruction,
    InstructionView, MetaView,
};
use crate::key::Pubkey;
use crate::program_ids::{
    ata_program, compute_budget_program, token_program, ATA_PROGRAM, COMPUTE_BUDGET_PROGRAM,
    SYSTEM_PROGRAM, TOKEN_PROGRAM,
};
use crate::state::{
    encode_instruction, instruction_bytes, parse_curve, stored_curve, Curve, CurveInstruction,
    LaunchCfg,
};
use crate::token::MINT_SIZE;
use vstd::prelude::*;

verus! {

/// The System program, as an account that is only read.
fn system_meta() -> (r: AccountMeta)
    ensures
        r@ == readonly(SYSTEM_PROGRAM@, false),
{
    AccountMeta::new_readonly(Pubkey { bytes: SYSTEM_PROGRAM }, false)
}

/// The Token program, as an account that is only read.
fn token_meta() -> (r: AccountMeta)
    ensures
        r@ == readonly(TOKEN_PROGRAM@, false),
{
    AccountMeta::new_readonly(token_program(), false)
}

// ---------------------------------------------------------------------------
// Initialize
// ---------------------------------------------------------------------------

/// The launch instruction for a configuration.
pub open spec fn launch_of(
    buy_creator: Pubkey,
    sell_creator: Pubkey,
    cfg: LaunchCfg,
) -> CurveInstruction {
    CurveInstruction::Initialize {
        buy_creator,
        sell_creator,
        start_price_fp: cfg.start_price_fp,
        double_vol: cfg.double_vol,
        buy_fee_creator_bps: cfg.buy_fee_creator_bps,
        buy_fee_floor_bps: cfg.buy_fee_floor_bps,
        sell_fee_creator_bps: cfg.sell_fee_creator_bps,
        sell_fee_floor_bps: cfg.sell_fee_floor_bps,
        min_backing_bps: cfg.min_backing_bps,
    }
}

/// Launch `mint`, whose curve is at `pda`.
pub open spec fn initialize_ix(
    program_id: Seq<u8>,
    payer: Seq<u8>,
    buy_creator: Pubkey,
    sell_creator: Pubkey,
    mint: Seq<u8>,
    cfg: LaunchCfg,
    pda: Seq<u8>,
) -> InstructionView {
    InstructionView {
        program_id,
        accounts: seq![
            writable(payer, true),
            writable(pda, false),
            readonly(mint, false),
            readonly(SYSTEM_PROGRAM@, false),
        ],
        data: instruction_bytes(launch_of(buy_creator, sell_creator, cfg)),
    }
}

/// Builds the launch of `mint`, whose curve is at `pda`.
pub fn initialize_at(
    program_id: &Pubkey,
    payer: &Pubkey,
    buy_creator: &Pubkey,
    sell_creator: &Pubkey,
    mint: &Pubkey,
    cfg: &LaunchCfg,
    pda: &Pubkey,
) -> (r: Instruction)
    ensures
        r@ == initialize_ix(program_id@, payer@, *buy_creator, *sell_creator, mint@, *cfg, pda@),
{
    let accounts: Vec<AccountMeta> = vec![
        AccountMeta::new(*payer, true),
        AccountMeta::new(*pda, false),
        AccountMeta::new_readonly(*mint, false),
        system_meta(),
    ];
    let data = encode_instruction(
        &CurveInstruction::Initialize {
            buy_creator: *buy_creator,
            sell_creator: *sell_creator,
            start_price_fp: cfg.start_price_fp,
            double_vol: cfg.double_vol,
            buy_fee_creator_bps: cfg.buy_fee_creator_bps,
            buy_fee_floor_bps: cfg.buy_fee_floor_bps,
            sell_fee_creator_bps: cfg.sell_fee_creator_bps,
            sell_fee_floor_bps: cfg.sell_fee_floor_bps,
            min_backing_bps: cfg.min_backing_bps,
        },
    );
    let r = Instruction { program_id: *program_id, accounts, data };
    assert(r@.accounts =~= seq![
        writable(payer@, true),
        writable(pda@, false),
        readonly(mint@, false),
        readonly(SYSTEM_PROGRAM@, false),
    ]);
    r
}

/// Builds the launch of `mint`.
pub fn initialize(
    program_id: &Pubkey,
    payer: &Pubkey,
    buy_creator: &Pubkey,
    sell_creator: &Pubkey,
    mint: &Pubkey,
    cfg: &LaunchCfg,
) -> (r: Instruction)
    requires
        curve_address(program_id@, mint@) is Some,
    ensures
        r@ == initialize_ix(
            program_id@,
            payer@,
            *buy_creator,
            *sell_creator,
            mint@,
            *cfg,
            (curve_address(program_id@, mint@)->0).0,
        ),
{
    let (pda, _) = curve_pda(program_id, mint);
    initialize_at(program_id, payer, buy_creator, sell_creator, mint, cfg, &pda)
}

/// Builds the launch of `mint`; `None` where its curve has no address.
pub fn try_initialize(
    program_id: &Pubkey,
    payer: &Pubkey,
    buy_creator: &Pubkey,
    sell_creator: &Pubkey,
    mint: &Pubkey,
    cfg: &LaunchCfg,
) -> (r: Option<Instruction>)
    ensures
        r is Some <==> curve_address(program_id@, mint@) is Some,
        r matches Some(ix) ==> ix@ == initialize_ix(
            program_id@,
            payer@,
            *buy_creator,
            *sell_creator,
            mint@,
            *cfg,
            (curve_address(program_id@, mint@)->0).0,
        ),
{
    if try_curve_pda(program_id, mint).is_some() {
        Some(initialize(program_id, payer, buy_creator, sell_creator, mint, cfg))
    } else {
        None
    }
}

// ---------------------------------------------------------------------------
// Trades
// ---------------------------------------------------------------------------

/// The accounts that every trade on `mint` names first.
pub open spec fn trade_metas(
    trader: Seq<u8>,
    pda: Seq<u8>,
    mint: Seq<u8>,
    account: Seq<u8>,
    creator: Seq<u8>,
) -> Seq<MetaView> {
    seq![
        writable(trader, true),
        writable(pda, false),
        writable(mint, false),
        writable(account, false),
        writable(creator, false),
        readonly(TOKEN_PROGRAM@, false),
    ]
}

/// Both addresses that a trade derives exist.
pub open spec fn trade_addressed(program_id: Seq<u8>, trader: Seq<u8>, mint: Seq<u8>) -> bool {
    curve_address(program_id, mint) is Some && ata_address(trader, mint) is Some
}

/// The accounts that every trade on `mint` names first.
fn trade_accounts(
    trader: &Pubkey,
    pda: &Pubkey,
    mint: &Pubkey,
    account: &Pubkey,
    creator: &Pubkey,
) -> (r: Vec<AccountMeta>)
    ensures
        r@.map_values(|m: AccountMeta| m@) == trade_metas(trader@, pda@, mint@, account@, creator@),
{
    let r: Vec<AccountMeta> = vec![
        AccountMeta::new(*trader, true),
        AccountMeta::new(*pda, false),
        AccountMeta::new(*mint, false),
        AccountMeta::new(*account, false),
        AccountMeta::new(*creator, false),
        token_meta(),
    ];
    assert(r@.map_values(|m: AccountMeta| m@) =~= trade_metas(
        trader@,
        pda@,
        mint@,
        account@,
        creator@,
    ));
    r
}

/// Buy units of `mint`, with the curve at `pda` and the token account `account`.
pub open spec fn buy_ix(
    program_id: Seq<u8>,
    buyer: Seq<u8>,
    mint: Seq<u8>,
    buy_creator: Seq<u8>,
    lamports: u64,
    min_out: u64,
    pda: Seq<u8>,
    account: Seq<u8>,
) -> InstructionView {
    InstructionView {
        program_id,
        accounts: trade_metas(buyer, pda, mint, account, buy_creator) + seq![
            readonly(SYSTEM_PROGRAM@, false),
        ],
        data: instruction_bytes(CurveInstruction::Buy { lamports, min_out }),
    }
}

/// Builds a buy of units of `mint`, with the derived addresses given.
pub fn buy_at(
    program_id: &Pubkey,
    buyer: &Pubkey,
    mint: &Pubkey,
    buy_creator: &Pubkey,
    lamports: u64,
    min_out: u64,
    pda: &Pubkey,
    account: &Pubkey,
) -> (r: Instruction)
    ensures
        r@ == buy_ix(
            program_id@,
            buyer@,
            mint@,
            buy_creator@,
            lamports,
            min_out,
            pda@,
            account@,
        ),
{
    let mut accounts = trade_accounts(buyer, pda, mint, account, buy_creator);
    accounts.push(system_meta());
    let data = encode_instruction(&CurveInstruction::Buy { lamports, min_out });
    let r = Instruction { program_id: *program_id, accounts, data };
    assert(r@.accounts =~= trade_metas(buyer@, pda@, mint@, account@, buy_creator@) + seq![
        readonly(SYSTEM_PROGRAM@, false),
    ]);
    r
}

/// Builds a buy of units of `mint`.
pub fn buy(
    program_id: &Pubkey,
    buyer: &Pubkey,
    mint: &Pubkey,
    buy_creator: &Pubkey,
    lamports: u64,
    min_out: u64,
) -> (r: Instruction)
    requires
        trade_addressed(program_id@, buyer@, mint@),
    ensures
        r@ == buy_ix(
            program_id@,
            buyer@,
            mint@,
            buy_creator@,
            lamports,
            min_out,
            (curve_address(program_id@, mint@)->0).0,
            (ata_address(buyer@, mint@)->0).0,
        ),
{
    let (pda, _) = curve_pda(program_id, mint);
    let account = ata(buyer, mint);
    buy_at(program_id, buyer, mint, buy_creator, lamports, min_out, &pda, &account)
}

/// Builds a buy of units of `mint`; `None` where an address does not exist.
pub fn try_buy(
    program_id: &Pubkey,
    buyer: &Pubkey,
    mint: &Pubkey,
    buy_creator: &Pubkey,
    lamports: u64,
    min_out: u64,
) -> (r: Option<Instruction>)
    ensures
        r is Some <==> trade_addressed(program_id@, buyer@, mint@),
        r matches Some(ix) ==> ix@ == buy_ix(
            program_id@,
            buyer@,
            mint@,
            buy_creator@,
            lamports,
            min_out,
            (curve_address(program_id@, mint@)->0).0,
            (ata_address(buyer@, mint@)->0).0,
        ),
{
    if try_curve_pda(program_id, mint).is_some() && try_ata(buyer, mint).is_some() {
        Some(buy(program_id, buyer, mint, buy_creator, lamports, min_out))
    } else {
        None
    }
}

/// Sell units of `mint`, with the curve at `pda` and the token account `account`.
pub open spec fn sell_ix(
    program_id: Seq<u8>,
    seller: Seq<u8>,
    mint: Seq<u8>,
    sell_creator: Seq<u8>,
    units: u64,
    min_out: u64,
    pda: Seq<u8>,
    account: Seq<u8>,
) -> InstructionView {
    InstructionView {
        program_id,
        accounts: trade_metas(seller, pda, mint, account, sell_creator),
        data: instruction_bytes(CurveInstruction::Sell { units, min_out }),
    }
}

/// Builds a sell of units of `mint`, with the derived addresses given.
pub fn sell_at(
    program_id: &Pubkey,
    seller: &Pubkey,
    mint: &Pubkey,
    sell_creator: &Pubkey,
    units: u64,
    min_out: u64,
    pda: &Pubkey,
    account: &Pubkey,
) -> (r: Instruction)
    ensures
        r@ == sell_ix(
            program_id@,
            seller@,
            mint@,
            sell_creator@,
            units,
            min_out,
            pda@,
            account@,
        ),
{
    let accounts = trade_accounts(seller, pda, mint, account, sell_creator);
    let data = encode_instruction(&CurveInstruction::Sell { units, min_out });
    let r = Instruction { program_id: *program_id, accounts, data };
    assert(r@.accounts =~= trade_metas(seller@, pda@, mint@, account@, sell_creator@));
    r
}

/// Builds a sell of units of `mint`.
pub fn sell(
    program_id: &Pubkey,
    seller: &Pubkey,
    mint: &Pubkey,
    sell_creator: &Pubkey,
    units: u64,
    min_out: u64,
) -> (r: Instruction)
    requires
        trade_addressed(program_id@, seller@, mint@),
    ensures
        r@ == sell_ix(
            program_id@,
            seller@,
            mint@,
            sell_creator@,
            units,
            min_out,
            (curve_address(program_id@, mint@)->0).0,
            (ata_address(seller@, mint@)->0).0,
        ),
{
    let (pda, _) = curve_pda(program_id, mint);
    let account = ata(seller, mint);
    sell_at(program_id, seller, mint, sell_creator, units, min_out, &pda, &account)
}

/// Builds a sell of units of `mint`; `None` where an address does not exist.
pub fn try_sell(
    program_id: &Pubkey,
    seller: &Pubkey,
    mint: &Pubkey,
    sell_creator: &Pubkey,
    units: u64,
    min_out: u64,
) -> (r: Option<Instruction>)
    ensures
        r is Some <==> trade_addressed(program_id@, seller@, mint@),
        r matches Some(ix) ==> ix@ == sell_ix(
            program_id@,
            seller@,
            mint@,
            sell_creator@,
            units,
            min_out,
            (curve_address(program_id@, mint@)->0).0,
            (ata_address(seller@, mint@)->0).0,
        ),
{
    if try_curve_pda(program_id, mint).is_some() && try_ata(seller, mint).is_some() {
        Some(sell(program_id, seller, mint, sell_creator, units, min_out))
    } else {
        None
    }
}

/// Sell units of `mint`, naming the payout account too, with the curve at `pda`
/// and the token account `account`.
pub open spec fn sell_via_payout_ix(
    program_id: Seq<u8>,
    seller: Seq<u8>,
    mint: Seq<u8>,
    sell_creator: Seq<u8>,
    units: u64,
    min_out: u64,
    pda: Seq<u8>,
    account: Seq<u8>,
    payout: Seq<u8>,
) -> InstructionView {
    InstructionView {
        program_id,
        accounts: trade_metas(seller, pda, mint, account, sell_creator) + seq![
            writable(payout, false),
            readonly(SYSTEM_PROGRAM@, false),
        ],
        data: instruction_bytes(CurveInstruction::Sell { units, min_out }),
    }
}

/// Builds a sell of units of `mint` that names the payout account too, with the
/// derived addresses given.
pub fn sell_via_payout_at(
    program_id: &Pubkey,
    seller: &Pubkey,
    mint: &Pubkey,
    sell_creator: &Pubkey,
    units: u64,
    min_out: u64,
    pda: &Pubkey,
    account: &Pubkey,
    payout: &Pubkey,
) -> (r: Instruction)
    ensures
        r@ == sell_via_payout_ix(
            program_id@,
            seller@,
            mint@,
            sell_creator@,
            units,
            min_out,
            pda@,
            account@,
            payout@,
        ),
{
    let mut accounts = trade_accounts(seller, pda, mint, account, sell_creator);
    accounts.push(AccountMeta::new(*payout, false));
    accounts.push(system_meta());
    let data = encode_instruction(&CurveInstruction::Sell { units, min_out });
    let r = Instruction { program_id: *program_id, accounts, data };
    assert(r@.accounts =~= trade_metas(seller@, pda@, mint@, account@, sell_creator@) + seq![
        writable(payout@, false),
        readonly(SYSTEM_PROGRAM@, false),
    ]);
    r
}

/// Builds a sell of units of `mint` that names the payout account too.
pub fn sell_via_payout(
    program_id: &Pubkey,
    seller: &Pubkey,
    mint: &Pubkey,
    sell_creator: &Pubkey,
    units: u64,
    min_out: u64,
) -> (r: Instruction)
    requires
        trade_addressed(program_id@, seller@, mint@),
        payout_address(program_id@) is Some,
    ensures
        r@ == sell_via_payout_ix(
            program_id@,
            seller@,
            mint@,
            sell_creator@,
            units,
            min_out,
            (curve_address(program_id@, mint@)->0).0,
            (ata_address(seller@, mint@)->0).0,
            (payout_address(program_id@)->0).0,
        ),
{
    let (pda, _) = curve_pda(program_id, mint);
    let account = ata(seller, mint);
    let payout = payout_pda(program_id);
    sell_via_payout_at(
        program_id,
        seller,
        mint,
        sell_creator,
        units,
        min_out,
        &pda,
        &account,
        &payout,
    )
}

/// Builds a sell of units of `mint` that names the payout account too; `None`
/// where an address does not exist.
pub fn try_sell_via_payout(
    program_id: &Pubkey,
    seller: &Pubkey,
    mint: &Pubkey,
    sell_creator: &Pubkey,
    units: u64,
    min_out: u64,
) -> (r: Option<Instruction>)
    ensures
        r is Some <==> trade_addressed(program_id@, seller@, mint@) && payout_address(
            program_id@,
        ) is Some,
        r matches Some(ix) ==> ix@ == sell_via_payout_ix(
            program_id@,
            seller@,
            mint@,
            sell_creator@,
            units,
            min_out,
            (curve_address(program_id@, mint@)->0).0,
            (ata_address(seller@, mint@)->0).0,
            (payout_address(program_id@)->0).0,
        ),
{
    if try_curve_pda(program_id, mint).is_some() && try_ata(seller, mint).is_some()
        && try_payout_pda(program_id).is_some() {
        Some(sell_via_payout(program_id, seller, mint, sell_creator, units, min_out))
    } else {
        None
    }
}

// ---------------------------------------------------------------------------
// Token accounts
// ---------------------------------------------------------------------------

/// Create the account of `mint` and make it a mint of nine decimals under
/// `pda`, without a freeze authority.
pub open spec fn create_mint_views(
    payer: Seq<u8>,
    mint: Seq<u8>,
    mint_rent: u64,
    pda: Seq<u8>,
) -> Seq<InstructionView> {
    seq![
        create_account(payer, mint, mint_rent, MINT_SIZE as u64, TOKEN_PROGRAM@),
        InstructionView {
            program_id: TOKEN_PROGRAM@,
            accounts: seq![writable(mint, false)],
            data: seq![20u8, 9u8] + pda + seq![0u8],
        },
    ]
}

/// Builds the instructions that create `mint` under the curve at `pda`.
pub fn create_mint_ixs_at(payer: &Pubkey, mint: &Pubkey, mint_rent: u64, pda: &Pubkey) -> (r: Vec<
    Instruction,
>)
    ensures
        r@.map_values(|ix: Instruction| ix@) == create_mint_views(payer@, mint@, mint_rent, pda@),
{
    let mut data: Vec<u8> = vec![20, 9];
    let mut i: usize = 0;
    while i < 32
        invariant
            i <= 32,
            data@ == seq![20u8, 9u8] + pda@.take(i as int),
        decreases 32 - i,
    {
        data.push(pda.bytes[i]);
        i = i + 1;
        assert(data@ =~= seq![20u8, 9u8] + pda@.take(i as int));
    }
    data.push(0);
    assert(data@ =~= seq![20u8, 9u8] + pda@ + seq![0u8]);
    let create = system_create_account(payer, mint, mint_rent, MINT_SIZE as u64, &token_program());
    let accounts: Vec<AccountMeta> = vec![AccountMeta::new(*mint, false)];
    let init = Instruction { program_id: token_program(), accounts, data };
    assert(init@.accounts =~= seq![writable(mint@, false)]);
    let r: Vec<Instruction> = vec![create, init];
    assert(r@.map_values(|ix: Instruction| ix@) =~= create_mint_views(
        payer@,
        mint@,
        mint_rent,
        pda@,
    ));
    r
}

/// Builds the instructions that create `mint` under its curve.
pub fn create_mint_ixs(program_id: &Pubkey, payer: &Pubkey, mint: &Pubkey, mint_rent: u64) -> (r:
    Vec<Instruction>)
    requires
        curve_address(program_id@, mint@) is Some,
    ensures
        r@.map_values(|ix: Instruction| ix@) == create_mint_views(
            payer@,
            mint@,
            mint_rent,
            (curve_address(program_id@, mint@)->0).0,
        ),
{
    let (pda, _) = curve_pda(program_id, mint);
    create_mint_ixs_at(payer, mint, mint_rent, &pda)
}

/// Builds the instructions that create `mint` under its curve; `None` where the
/// curve has no address.
pub fn try_create_mint_ixs(program_id: &Pubkey, payer: &Pubkey, mint: &Pubkey, mint_rent: u64) -> (r:
    Option<Vec<Instruction>>)
    ensures
        r is Some <==> curve_address(program_id@, mint@) is Some,
        r matches Some(ixs) ==> ixs@.map_values(|ix: Instruction| ix@) == create_mint_views(
            payer@,
            mint@,
            mint_rent,
            (curve_address(program_id@, mint@)->0).0,
        ),
{
    if try_curve_pda(program_id, mint).is_some() {
        Some(create_mint_ixs(program_id, payer, mint, mint_rent))
    } else {
        None
    }
}

/// Create the token account `account` of `owner` for `mint`, unless it exists.
pub open spec fn create_ata_view(
    payer: Seq<u8>,
    owner: Seq<u8>,
    mint: Seq<u8>,
    account: Seq<u8>,
) -> InstructionView {
    InstructionView {
        program_id: ATA_PROGRAM@,
        accounts: seq![
            writable(payer, true),
            writable(account, false),
            readonly(owner, false),
            readonly(mint, false),
            readonly(SYSTEM_PROGRAM@, false),
            readonly(TOKEN_PROGRAM@, false),
        ],
        data: seq![1u8],
    }
}

/// Builds the instruction that creates the token account `account`.
pub fn create_ata_ix_at(payer: &Pubkey, owner: &Pubkey, mint: &Pubkey, account: &Pubkey) -> (r:
    Instruction)
    ensures
        r@ == create_ata_view(payer@, owner@, mint@, account@),
{
    let accounts: Vec<AccountMeta> = vec![
        AccountMeta::new(*payer, true),
        AccountMeta::new(*account, false),
        AccountMeta::new_readonly(*owner, false),
        AccountMeta::new_readonly(*mint, false),
        system_meta(),
        token_meta(),
    ];
    let data: Vec<u8> = vec![1];
    let r = Instruction { program_id: ata_program(), accounts, data };
    assert(r@.data =~= seq![1u8]);
    assert(r@.accounts =~= create_ata_view(payer@, owner@, mint@, account@).accounts);
    r
}

/// Builds the instruction that creates an owner's token account for a mint.
pub fn create_ata_ix(payer: &Pubkey, owner: &Pubkey, mint: &Pubkey) -> (r: Instruction)
    requires
        ata_address(owner@, mint@) is Some,
    ensures
        r@ == create_ata_view(payer@, owner@, mint@, (ata_address(owner@, mint@)->0).0),
{
    create_ata_ix_at(payer, owner, mint, &ata(owner, mint))
}

/// Builds the instruction that creates an owner's token account for a mint;
/// `None` where the account has no address.
pub fn try_create_ata_ix(payer: &Pubkey, owner: &Pubkey, mint: &Pubkey) -> (r: Option<Instruction>)
    ensures
        r is Some <==> ata_address(owner@, mint@) is Some,
        r matches Some(ix) ==> ix@ == create_ata_view(
            payer@,
            owner@,
            mint@,
            (ata_address(owner@, mint@)->0).0,
        ),
{
    if try_ata(owner, mint).is_some() {
        Some(create_ata_ix(payer, owner, mint))
    } else {
        None
    }
}

// ---------------------------------------------------------------------------
// Launch
// ---------------------------------------------------------------------------

/// A whole launch: create the mint under its curve, then open the curve. Sent
/// as one transaction, the mint does not exist before its curve does.
pub open spec fn launch_views(
    program_id: Seq<u8>,
    payer: Seq<u8>,
    buy_creator: Pubkey,
    sell_creator: Pubkey,
    mint: Seq<u8>,
    mint_rent: u64,
    cfg: LaunchCfg,
    pda: Seq<u8>,
) -> Seq<InstructionView> {
    create_mint_views(payer, mint, mint_rent, pda).push(
        initialize_ix(program_id, payer, buy_creator, sell_creator, mint, cfg, pda),
    )
}

/// Builds a whole launch, with the curve at `pda`.
pub fn launch_ixs_at(
    program_id: &Pubkey,
    payer: &Pubkey,
    buy_creator: &Pubkey,
    sell_creator: &Pubkey,
    mint: &Pubkey,
    mint_rent: u64,
    cfg: &LaunchCfg,
    pda: &Pubkey,
) -> (r: Vec<Instruction>)
    ensures
        r@.map_values(|ix: Instruction| ix@) == launch_views(
            program_id@,
            payer@,
            *buy_creator,
            *sell_creator,
            mint@,
            mint_rent,
            *cfg,
            pda@,
        ),
{
    let mut r = create_mint_ixs_at(payer, mint, mint_rent, pda);
    let ghost before = r@;
    r.push(initialize_at(program_id, payer, buy_creator, sell_creator, mint, cfg, pda));
    proof {
        let view = |ix: Instruction| ix@;
        assert(r@ == before.push(r@.last()));
        assert(r@.map_values(view) =~= before.map_values(view).push(r@.last()@));
    }
    r
}

/// Builds a whole launch.
pub fn launch_ixs(
    program_id: &Pubkey,
    payer: &Pubkey,
    buy_creator: &Pubkey,
    sell_creator: &Pubkey,
    mint: &Pubkey,
    mint_rent: u64,
    cfg: &LaunchCfg,
) -> (r: Vec<Instruction>)
    requires
        curve_address(program_id@, mint@) is Some,
    ensures
        r@.map_values(|ix: Instruction| ix@) == launch_views(
            program_id@,
            payer@,
            *buy_creator,
            *sell_creator,
            mint@,
            mint_rent,
            *cfg,
            (curve_address(program_id@, mint@)->0).0,
        ),
{
    let (pda, _) = curve_pda(program_id, mint);
    launch_ixs_at(program_id, payer, buy_creator, sell_creator, mint, mint_rent, cfg, &pda)
}

/// Builds a whole launch; `None` where the curve has no address.
pub fn try_launch_ixs(
    program_id: &Pubkey,
    payer: &Pubkey,
    buy_creator: &Pubkey,
    sell_creator: &Pubkey,
    mint: &Pubkey,
    mint_rent: u64,
    cfg: &LaunchCfg,
) -> (r: Option<Vec<Instruction>>)
    ensures
        r is Some <==> curve_address(program_id@, mint@) is Some,
        r matches Some(ixs) ==> ixs@.map_values(|ix: Instruction| ix@) == launch_views(
            program_id@,
            payer@,
            *buy_creator,
            *sell_creator,
            mint@,
            mint_rent,
            *cfg,
            (curve_address(program_id@, mint@)->0).0,
        ),
{
    if try_curve_pda(program_id, mint).is_some() {
        Some(launch_ixs(program_id, payer, buy_creator, sell_creator, mint, mint_rent, cfg))
    } else {
        None
    }
}

/// The curve that a launch left behind, read back from its account; `None`
/// where the bytes store none, or one of another mint or other creators.
pub fn confirm_launch(
    data: &[u8],
    mint: &Pubkey,
    buy_creator: &Pubkey,
    sell_creator: &Pubkey,
) -> (r: Option<Curve>)
    ensures
        r == match stored_curve(data@) {
            Some(c) => if c.mint@ == mint@ && c.buy_creator@ == buy_creator@ && c.sell_creator@
                == sell_creator@ {
                Some(c)
            } else {
                None
            },
            None => None,
        },
{
    match parse_curve(data) {
        Some(c) => if c.mint == *mint && c.buy_creator == *buy_creator && c.sell_creator
            == *sell_creator {
            Some(c)
        } else {
            None
        },
        None => None,
    }
}

// ---------------------------------------------------------------------------
// Compute budget
// ---------------------------------------------------------------------------

/// Builds the instruction that asks for `units` of compute.
pub fn cu_limit(units: u32) -> (r: Instruction)
    ensures
        r@ == (InstructionView {
            program_id: COMPUTE_BUDGET_PROGRAM@,
            accounts: Seq::empty(),
            data: seq![2u8] + le_bytes(units as nat, 4),
        }),
{
    let mut data: Vec<u8> = vec![2];
    assert(data@ =~= seq![2u8]);
    push_le(&mut data, units as u64, 4);
    let accounts: Vec<AccountMeta> = Vec::new();
    let r = Instruction { program_id: compute_budget_program(), accounts, data };
    assert(r@.accounts =~= Seq::<MetaView>::empty());
    r
}

} // verus!
