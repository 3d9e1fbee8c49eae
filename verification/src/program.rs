//! The on-chain program: what each instruction checks, decides and asks the
//! runtime to do.
//!
//! Nothing here touches an account. A handler reads a snapshot of the accounts
//! and the rent, and answers with the calls to make and the state to store.

use crate::address::{copy_bytes, curve_address, curve_pda, try_curve_pda};
use crate::error::{
    err, ProgramError, E_ALREADY_INIT, E_BAD_CREATOR, E_BAD_MINT, E_BAD_PARAMS, E_BAD_PDA,
    E_BAD_TOKEN_ACCOUNT, E_INSUFFICIENT_VAULT, E_SLIPPAGE, E_ZERO_AMOUNT,
};
use crate::instruction::{
    allocate, assign, create_account, system_allocate, system_assign, system_create_account,
    system_transfer, transfer, Instruction, InstructionView,
};
use crate::key::{seed_bytes, Pubkey};
use crate::market::{
    backing, buy_result, curve_after_buy, quote_buy, quote_sell, sell_fee, sell_kept, sell_payout,
    share, split_buy, BuySplit, SellSplit,
};
use crate::program_ids::{token_program, SYSTEM_PROGRAM, TOKEN_PROGRAM};
use crate::state::{
    decode_instruction, parse_curve, sent_instruction, stored_curve, Curve, CurveInstruction,
    LaunchCfg, CURVE_SEED, CURVE_SIZE,
};
use crate::token::{
    burn, mint_to, optional_key, parse_mint, spl_burn, spl_mint_to, stored_supply,
    token_account_mint, MINT_SIZE,
};
use vstd::prelude::*;

verus! {

/// An account as the runtime hands it over.
#[derive(Debug)]
pub struct Account {
    pub key: Pubkey,
    pub owner: Pubkey,
    pub is_signer: bool,
    pub lamports: u64,
    pub data: Vec<u8>,
}

/// A call that the runtime is asked to make.
#[derive(Debug)]
pub struct Cpi {
    pub instruction: Instruction,
    /// The call carries the curve's own signature.
    pub signed: bool,
}

/// A call that the runtime is asked to make, by its bytes.
#[verifier::ext_equal]
pub struct CpiView {
    pub instruction: InstructionView,
    pub signed: bool,
}

impl View for Cpi {
    type V = CpiView;

    open spec fn view(&self) -> CpiView {
        CpiView { instruction: self.instruction@, signed: self.signed }
    }
}

/// A call with the curve's signature.
pub open spec fn signed(instruction: InstructionView) -> CpiView {
    CpiView { instruction, signed: true }
}

/// A call with the signatures of the transaction alone.
pub open spec fn unsigned(instruction: InstructionView) -> CpiView {
    CpiView { instruction, signed: false }
}

/// Calls, by their bytes.
pub open spec fn cpi_views(cpis: Seq<Cpi>) -> Seq<CpiView> {
    cpis.map_values(|c: Cpi| c@)
}

/// The System program's address.
fn system_program() -> (r: Pubkey)
    ensures
        r@ == SYSTEM_PROGRAM@,
{
    Pubkey { bytes: SYSTEM_PROGRAM }
}

/// The seeds with which the curve of `mint` signs.
pub fn signer_seeds(mint: &Pubkey, bump: u8) -> (r: Vec<Vec<u8>>)
    ensures
        seed_bytes(r@) == seq![CURVE_SEED@, mint@, seq![bump]],
{
    let tail: Vec<u8> = vec![bump];
    assert(tail@ =~= seq![bump]);
    let r: Vec<Vec<u8>> = vec![copy_bytes(&CURVE_SEED), copy_bytes(&mint.bytes), tail];
    assert(seed_bytes(r@) =~= seq![CURVE_SEED@, mint@, seq![bump]]);
    r
}

// ---------------------------------------------------------------------------
// Initialize
// ---------------------------------------------------------------------------

/// What an accepted launch does: make the calls, then store the curve.
#[derive(Debug)]
pub struct InitializePlan {
    pub cpis: Vec<Cpi>,
    pub curve: Curve,
}

/// What an accepted launch does, by its bytes.
#[verifier::ext_equal]
pub struct InitializeView {
    pub cpis: Seq<CpiView>,
    pub curve: Curve,
}

impl View for InitializePlan {
    type V = InitializeView;

    open spec fn view(&self) -> InitializeView {
        InitializeView { cpis: cpi_views(self.cpis@), curve: self.curve }
    }
}

/// The first reason to refuse a launch that shows before the curve's address is
/// derived.
///
/// The accounts are payer, curve, mint and System program.
pub open spec fn initialize_refusal(accounts: Seq<Account>, cfg: LaunchCfg) -> Option<ProgramError> {
    if accounts.len() < 4 {
        Some(ProgramError::NotEnoughAccountKeys)
    } else if !accounts[0].is_signer {
        Some(ProgramError::MissingRequiredSignature)
    } else if accounts[3].key@ != SYSTEM_PROGRAM@ {
        Some(ProgramError::IncorrectProgramId)
    } else if !cfg.allowed() {
        Some(ProgramError::Custom(E_BAD_PARAMS))
    } else {
        None
    }
}

/// An initialized mint of nine decimals without supply, which `authority` alone
/// may mint and nobody may freeze.
pub open spec fn launchable_mint(data: Seq<u8>, authority: Seq<u8>) -> bool {
    &&& data.len() >= MINT_SIZE
    &&& data[45] == 1
    &&& data[44] == 9
    &&& stored_supply(data) == 0
    &&& optional_key(data, 0) == Some(authority)
    &&& optional_key(data, 46) is None
}

/// The calls that turn the curve's address into a program-owned account of the
/// right size with at least its rent.
///
/// An address that holds lamports already cannot be created: it is topped up,
/// given room and assigned.
pub open spec fn initialize_cpis(
    program_id: Seq<u8>,
    payer: Seq<u8>,
    curve: Seq<u8>,
    lamports: u64,
    rent: u64,
) -> Seq<CpiView> {
    if lamports == 0 {
        seq![signed(create_account(payer, curve, rent, CURVE_SIZE as u64, program_id))]
    } else {
        let top_up = if lamports < rent {
            seq![unsigned(transfer(payer, curve, (rent - lamports) as u64))]
        } else {
            Seq::empty()
        };
        top_up + seq![
            signed(allocate(curve, CURVE_SIZE as u64)),
            signed(assign(curve, program_id)),
        ]
    }
}

/// What a launch comes to, given the address and bump that the mint derives.
pub open spec fn initialize_outcome(
    program_id: Seq<u8>,
    accounts: Seq<Account>,
    buy_creator: Pubkey,
    sell_creator: Pubkey,
    cfg: LaunchCfg,
    pda: Seq<u8>,
    bump: u8,
    rent: Result<u64, ProgramError>,
) -> Result<InitializeView, ProgramError> {
    match initialize_refusal(accounts, cfg) {
        Some(e) => Err(e),
        None => if pda != accounts[1].key@ {
            Err(ProgramError::Custom(E_BAD_PDA))
        } else if accounts[1].data@.len() != 0 || accounts[1].owner@ == program_id {
            Err(ProgramError::Custom(E_ALREADY_INIT))
        } else if accounts[2].owner@ != TOKEN_PROGRAM@ || !launchable_mint(
            accounts[2].data@,
            pda,
        ) {
            Err(ProgramError::Custom(E_BAD_MINT))
        } else {
            match rent {
                Err(e) => Err(e),
                Ok(rent) => Ok(
                    InitializeView {
                        cpis: initialize_cpis(
                            program_id,
                            accounts[0].key@,
                            accounts[1].key@,
                            accounts[1].lamports,
                            rent,
                        ),
                        curve: Curve {
                            mint: accounts[2].key,
                            buy_creator,
                            sell_creator,
                            price_fp: cfg.start_price_fp,
                            double_vol: cfg.double_vol,
                            buy_fee_creator_bps: cfg.buy_fee_creator_bps,
                            buy_fee_floor_bps: cfg.buy_fee_floor_bps,
                            sell_fee_creator_bps: cfg.sell_fee_creator_bps,
                            sell_fee_floor_bps: cfg.sell_fee_floor_bps,
                            min_backing_bps: cfg.min_backing_bps,
                            cum_vol: 0,
                            bump,
                        },
                    },
                ),
            }
        },
    }
}

/// A result is the outcome, calls taken by their bytes.
pub open spec fn is_initialize(
    r: Result<InitializePlan, ProgramError>,
    outcome: Result<InitializeView, ProgramError>,
) -> bool {
    match (r, outcome) {
        (Ok(plan), Ok(view)) => plan@ == view,
        (Err(e), Err(f)) => e == f,
        _ => false,
    }
}

/// The first reason to refuse a launch that shows before the curve's address is
/// derived.
fn refuse_initialize(accounts: &[Account], cfg: &LaunchCfg) -> (r: Option<ProgramError>)
    ensures
        r == initialize_refusal(accounts@, *cfg),
{
    if accounts.len() < 4 {
        Some(ProgramError::NotEnoughAccountKeys)
    } else if !accounts[0].is_signer {
        Some(ProgramError::MissingRequiredSignature)
    } else if accounts[3].key != system_program() {
        Some(ProgramError::IncorrectProgramId)
    } else if !cfg.is_allowed() {
        Some(err(E_BAD_PARAMS))
    } else {
        None
    }
}

/// Whether the mint is ready for launch under `authority`.
fn is_launchable_mint(data: &[u8], authority: &Pubkey) -> (r: bool)
    ensures
        r == launchable_mint(data@, authority@),
{
    match parse_mint(data) {
        Ok(mint) => {
            let held: bool = match mint.authority {
                Some(k) => k == *authority,
                None => false,
            };
            mint.initialized && mint.decimals == 9 && mint.supply == 0 && held
                && mint.freeze_authority.is_none()
        },
        Err(_) => false,
    }
}

/// The calls that set the curve's account up.
fn plan_account(program_id: &Pubkey, payer: &Pubkey, curve: &Pubkey, lamports: u64, rent: u64) -> (r:
    Vec<Cpi>)
    ensures
        cpi_views(r@) == initialize_cpis(program_id@, payer@, curve@, lamports, rent),
{
    let mut cpis: Vec<Cpi> = Vec::new();
    if lamports == 0 {
        cpis.push(
            Cpi {
                instruction: system_create_account(
                    payer,
                    curve,
                    rent,
                    CURVE_SIZE as u64,
                    program_id,
                ),
                signed: true,
            },
        );
    } else {
        if lamports < rent {
            cpis.push(
                Cpi {
                    instruction: system_transfer(payer, curve, rent - lamports),
                    signed: false,
                },
            );
        }
        cpis.push(
            Cpi { instruction: system_allocate(curve, CURVE_SIZE as u64), signed: true },
        );
        cpis.push(Cpi { instruction: system_assign(curve, program_id), signed: true });
    }
    assert(cpi_views(cpis@) =~= initialize_cpis(program_id@, payer@, curve@, lamports, rent));
    cpis
}

/// Decides on a launch, given the address and bump that the mint derives.
pub fn initialize_at(
    program_id: &Pubkey,
    accounts: &[Account],
    buy_creator: Pubkey,
    sell_creator: Pubkey,
    cfg: &LaunchCfg,
    pda: &Pubkey,
    bump: u8,
    rent: Result<u64, ProgramError>,
) -> (r: Result<InitializePlan, ProgramError>)
    ensures
        is_initialize(
            r,
            initialize_outcome(
                program_id@,
                accounts@,
                buy_creator,
                sell_creator,
                *cfg,
                pda@,
                bump,
                rent,
            ),
        ),
{
    match refuse_initialize(accounts, cfg) {
        Some(e) => {
            return Err(e);
        },
        None => {},
    }
    let payer_ai = &accounts[0];
    let curve_ai = &accounts[1];
    let mint_ai = &accounts[2];
    if *pda != curve_ai.key {
        return Err(err(E_BAD_PDA));
    }
    if curve_ai.data.len() != 0 || curve_ai.owner == *program_id {
        return Err(err(E_ALREADY_INIT));
    }
    if mint_ai.owner != token_program() || !is_launchable_mint(&mint_ai.data, pda) {
        return Err(err(E_BAD_MINT));
    }
    let rent: u64 = match rent {
        Ok(rent) => rent,
        Err(e) => {
            return Err(e);
        },
    };
    let cpis = plan_account(program_id, &payer_ai.key, &curve_ai.key, curve_ai.lamports, rent);
    let curve = Curve {
        mint: mint_ai.key,
        buy_creator,
        sell_creator,
        price_fp: cfg.start_price_fp,
        double_vol: cfg.double_vol,
        buy_fee_creator_bps: cfg.buy_fee_creator_bps,
        buy_fee_floor_bps: cfg.buy_fee_floor_bps,
        sell_fee_creator_bps: cfg.sell_fee_creator_bps,
        sell_fee_floor_bps: cfg.sell_fee_floor_bps,
        min_backing_bps: cfg.min_backing_bps,
        cum_vol: 0,
        bump,
    };
    Ok(InitializePlan { cpis, curve })
}

/// A launch that is not refused at once names a mint whose curve has an
/// address.
pub open spec fn initialize_runs(
    program_id: Seq<u8>,
    accounts: Seq<Account>,
    cfg: LaunchCfg,
) -> bool {
    initialize_refusal(accounts, cfg) is None ==> curve_address(
        program_id,
        accounts[2].key@,
    ) is Some
}

/// What a launch comes to.
pub open spec fn launch_outcome(
    program_id: Seq<u8>,
    accounts: Seq<Account>,
    buy_creator: Pubkey,
    sell_creator: Pubkey,
    cfg: LaunchCfg,
    rent: Result<u64, ProgramError>,
) -> Result<InitializeView, ProgramError> {
    let (pda, bump) = curve_address(program_id, accounts[2].key@)->0;
    initialize_outcome(program_id, accounts, buy_creator, sell_creator, cfg, pda, bump, rent)
}

/// Decides on a launch.
pub fn initialize(
    program_id: &Pubkey,
    accounts: &[Account],
    buy_creator: Pubkey,
    sell_creator: Pubkey,
    cfg: &LaunchCfg,
    rent: Result<u64, ProgramError>,
) -> (r: Result<InitializePlan, ProgramError>)
    requires
        initialize_runs(program_id@, accounts@, *cfg),
    ensures
        is_initialize(
            r,
            launch_outcome(program_id@, accounts@, buy_creator, sell_creator, *cfg, rent),
        ),
{
    match refuse_initialize(accounts, cfg) {
        Some(e) => Err(e),
        None => {
            let (pda, bump) = curve_pda(program_id, &accounts[2].key);
            initialize_at(
                program_id,
                accounts,
                buy_creator,
                sell_creator,
                cfg,
                &pda,
                bump,
                rent,
            )
        },
    }
}

// ---------------------------------------------------------------------------
// Trades
// ---------------------------------------------------------------------------

/// The curve that an account of the program stores.
pub open spec fn owned_curve(program_id: Seq<u8>, curve_ai: Account) -> Result<
    Curve,
    ProgramError,
> {
    if curve_ai.owner@ != program_id {
        Err(ProgramError::Custom(E_BAD_PDA))
    } else {
        match stored_curve(curve_ai.data@) {
            Some(curve) => Ok(curve),
            None => Err(ProgramError::BorshIoError),
        }
    }
}

/// The curve of a mint, with `expect` the address that the stored curve's mint
/// derives: the account has to be at that address, and the mint has to be the
/// stored one.
pub open spec fn loaded_curve(
    program_id: Seq<u8>,
    curve_ai: Account,
    mint_ai: Account,
    expect: Seq<u8>,
) -> Result<Curve, ProgramError> {
    match owned_curve(program_id, curve_ai) {
        Err(e) => Err(e),
        Ok(curve) => if expect != curve_ai.key@ || curve.mint@ != mint_ai.key@ {
            Err(ProgramError::Custom(E_BAD_PDA))
        } else {
            Ok(curve)
        },
    }
}

/// The first reason to refuse a trade that shows before its curve is read.
///
/// The accounts are trader, curve, mint, the trader's token account, creator
/// and Token program. A buy also names the System program.
pub open spec fn trade_refusal(accounts: Seq<Account>, buying: bool, amount: u64) -> Option<
    ProgramError,
> {
    if accounts.len() < 6 || (buying && accounts.len() < 7) {
        Some(ProgramError::NotEnoughAccountKeys)
    } else if !accounts[0].is_signer {
        Some(ProgramError::MissingRequiredSignature)
    } else if accounts[5].key@ != TOKEN_PROGRAM@ || (buying && accounts[6].key@
        != SYSTEM_PROGRAM@) {
        Some(ProgramError::IncorrectProgramId)
    } else if amount == 0 {
        Some(ProgramError::Custom(E_ZERO_AMOUNT))
    } else {
        None
    }
}

/// The curve that a trade names, or the first reason to refuse the trade that
/// shows before the curve's address is derived.
pub open spec fn trade_opening(
    program_id: Seq<u8>,
    accounts: Seq<Account>,
    buying: bool,
    amount: u64,
) -> Result<Curve, ProgramError> {
    match trade_refusal(accounts, buying, amount) {
        Some(e) => Err(e),
        None => owned_curve(program_id, accounts[1]),
    }
}

/// The curve that a trade is on, or the first reason to refuse the trade that
/// its accounts give, with `expect` the address that the curve's mint derives.
pub open spec fn trade_curve(
    program_id: Seq<u8>,
    accounts: Seq<Account>,
    buying: bool,
    amount: u64,
    expect: Seq<u8>,
) -> Result<Curve, ProgramError> {
    match trade_refusal(accounts, buying, amount) {
        Some(e) => Err(e),
        None => match loaded_curve(program_id, accounts[1], accounts[2], expect) {
            Err(e) => Err(e),
            Ok(curve) => {
                let creator = if buying {
                    curve.buy_creator
                } else {
                    curve.sell_creator
                };
                if creator@ != accounts[4].key@ {
                    Err(ProgramError::Custom(E_BAD_CREATOR))
                } else if accounts[3].data@.len() < 72 || accounts[3].data@.subrange(0, 32)
                    != curve.mint@ {
                    Err(ProgramError::Custom(E_BAD_TOKEN_ACCOUNT))
                } else {
                    Ok(curve)
                }
            },
        },
    }
}

/// The address that the mint of the stored curve derives.
pub open spec fn stored_address(program_id: Seq<u8>, curve_ai: Account) -> Seq<u8> {
    (curve_address(program_id, (stored_curve(curve_ai.data@)->0).mint@)->0).0
}

/// The curve that an account of the program stores.
fn read_owned_curve(program_id: &Pubkey, curve_ai: &Account) -> (r: Result<Curve, ProgramError>)
    ensures
        r == owned_curve(program_id@, *curve_ai),
{
    if curve_ai.owner != *program_id {
        return Err(err(E_BAD_PDA));
    }
    match parse_curve(&curve_ai.data) {
        Some(curve) => Ok(curve),
        None => Err(ProgramError::BorshIoError),
    }
}

/// Loads the curve of a mint, with `expect` the address that the stored curve's
/// mint derives.
pub fn load_curve_at(
    program_id: &Pubkey,
    curve_ai: &Account,
    mint_ai: &Account,
    expect: &Pubkey,
) -> (r: Result<Curve, ProgramError>)
    ensures
        r == loaded_curve(program_id@, *curve_ai, *mint_ai, expect@),
{
    match read_owned_curve(program_id, curve_ai) {
        Err(e) => Err(e),
        Ok(curve) => if *expect != curve_ai.key || curve.mint != mint_ai.key {
            Err(err(E_BAD_PDA))
        } else {
            Ok(curve)
        },
    }
}

/// Loads the curve of a mint.
pub fn load_curve(program_id: &Pubkey, curve_ai: &Account, mint_ai: &Account) -> (r: Result<
    Curve,
    ProgramError,
>)
    requires
        owned_curve(program_id@, *curve_ai) matches Ok(curve) ==> curve_address(
            program_id@,
            curve.mint@,
        ) is Some,
    ensures
        r == loaded_curve(
            program_id@,
            *curve_ai,
            *mint_ai,
            stored_address(program_id@, *curve_ai),
        ),
{
    match read_owned_curve(program_id, curve_ai) {
        Err(e) => Err(e),
        Ok(curve) => {
            let (expect, _) = curve_pda(program_id, &curve.mint);
            load_curve_at(program_id, curve_ai, mint_ai, &expect)
        },
    }
}

/// The first reason to refuse a trade that shows before its curve is read.
fn refuse_trade(accounts: &[Account], buying: bool, amount: u64) -> (r: Option<ProgramError>)
    ensures
        r == trade_refusal(accounts@, buying, amount),
{
    if accounts.len() < 6 || (buying && accounts.len() < 7) {
        Some(ProgramError::NotEnoughAccountKeys)
    } else if !accounts[0].is_signer {
        Some(ProgramError::MissingRequiredSignature)
    } else if accounts[5].key != token_program() || (buying && accounts[6].key
        != system_program()) {
        Some(ProgramError::IncorrectProgramId)
    } else if amount == 0 {
        Some(err(E_ZERO_AMOUNT))
    } else {
        None
    }
}

/// The creator and the token account that a trade names are the curve's.
fn check_parties(accounts: &[Account], curve: &Curve, buying: bool) -> (r: Option<ProgramError>)
    requires
        accounts@.len() >= 6,
    ensures
        ({
            let creator = if buying {
                curve.buy_creator
            } else {
                curve.sell_creator
            };
            r == if creator@ != accounts@[4].key@ {
                Some(ProgramError::Custom(E_BAD_CREATOR))
            } else if accounts@[3].data@.len() < 72 || accounts@[3].data@.subrange(0, 32)
                != curve.mint@ {
                Some(ProgramError::Custom(E_BAD_TOKEN_ACCOUNT))
            } else {
                None
            }
        }),
{
    let creator: Pubkey = if buying {
        curve.buy_creator
    } else {
        curve.sell_creator
    };
    if creator != accounts[4].key {
        return Some(err(E_BAD_CREATOR));
    }
    match token_account_mint(&accounts[3].data) {
        Ok(mint) => if mint != curve.mint {
            Some(err(E_BAD_TOKEN_ACCOUNT))
        } else {
            None
        },
        Err(e) => Some(e),
    }
}

/// The curve that a trade is on, with `expect` the address that the curve's mint
/// derives.
fn check_trade_at(
    program_id: &Pubkey,
    accounts: &[Account],
    buying: bool,
    amount: u64,
    expect: &Pubkey,
) -> (r: Result<Curve, ProgramError>)
    ensures
        r == trade_curve(program_id@, accounts@, buying, amount, expect@),
        r is Ok ==> accounts@.len() >= 6,
{
    match refuse_trade(accounts, buying, amount) {
        Some(e) => {
            return Err(e);
        },
        None => {},
    }
    match load_curve_at(program_id, &accounts[1], &accounts[2], expect) {
        Err(e) => Err(e),
        Ok(curve) => match check_parties(accounts, &curve, buying) {
            Some(e) => Err(e),
            None => Ok(curve),
        },
    }
}

/// The curve that a trade is on.
fn check_trade(program_id: &Pubkey, accounts: &[Account], buying: bool, amount: u64) -> (r: Result<
    Curve,
    ProgramError,
>)
    requires
        trade_opening(program_id@, accounts@, buying, amount) matches Ok(curve) ==> curve_address(
            program_id@,
            curve.mint@,
        ) is Some,
    ensures
        r == trade_curve(
            program_id@,
            accounts@,
            buying,
            amount,
            stored_address(program_id@, accounts@[1]),
        ),
        r is Ok ==> accounts@.len() >= 6,
{
    match refuse_trade(accounts, buying, amount) {
        Some(e) => {
            return Err(e);
        },
        None => {},
    }
    match load_curve(program_id, &accounts[1], &accounts[2]) {
        Err(e) => Err(e),
        Ok(curve) => match check_parties(accounts, &curve, buying) {
            Some(e) => Err(e),
            None => Ok(curve),
        },
    }
}

/// A trade that is not refused at once names a curve whose mint has a curve
/// address, and one that its accounts do not refuse is on a curve whose
/// fees take at most everything.
pub open spec fn trade_runs(
    program_id: Seq<u8>,
    accounts: Seq<Account>,
    buying: bool,
    amount: u64,
) -> bool {
    trade_opening(program_id, accounts, buying, amount) matches Ok(curve) ==> {
        &&& curve_address(program_id, curve.mint@) is Some
        &&& trade_curve(
            program_id,
            accounts,
            buying,
            amount,
            stored_address(program_id, accounts[1]),
        ) is Ok ==> curve.fees_fit(buying)
    }
}

// ---------------------------------------------------------------------------
// Buy
// ---------------------------------------------------------------------------

/// An accepted buy: make the transfers, then settle.
#[derive(Debug)]
pub struct BuyOrder {
    pub transfers: Vec<Cpi>,
    pub curve: Curve,
    pub split: BuySplit,
    /// The backing before the transfers.
    pub vault: u64,
    /// The supply before the transfers.
    pub supply: u64,
    pub min_out: u64,
    /// The buyer's token account.
    pub dest: Pubkey,
    /// The curve's account.
    pub authority: Pubkey,
}

/// An accepted buy, by its bytes.
#[verifier::ext_equal]
pub struct BuyView {
    pub transfers: Seq<CpiView>,
    pub curve: Curve,
    pub creator_fee: nat,
    pub donation: nat,
    pub net: int,
    pub vault: nat,
    pub supply: nat,
    pub min_out: u64,
    pub dest: Seq<u8>,
    pub authority: Seq<u8>,
}

impl View for BuyOrder {
    type V = BuyView;

    open spec fn view(&self) -> BuyView {
        BuyView {
            transfers: cpi_views(self.transfers@),
            curve: self.curve,
            creator_fee: self.split.creator_fee as nat,
            donation: self.split.donation as nat,
            net: self.split.net as int,
            vault: self.vault as nat,
            supply: self.supply as nat,
            min_out: self.min_out,
            dest: self.dest@,
            authority: self.authority@,
        }
    }
}

impl BuyOrder {
    /// A first buy needs a price to mint at and a backing to quote the next
    /// price by.
    pub open spec fn settles(self) -> bool {
        self.supply == 0 ==> self.curve.price_fp > 0 && self.curve.min_backing_bps > 0
    }

    /// Whether the order can be settled.
    pub fn can_settle(&self) -> (r: bool)
        ensures
            r == self.settles(),
    {
        self.supply != 0 || (self.curve.price_fp > 0 && self.curve.min_backing_bps > 0)
    }
}

/// The lamports of an account above its rent.
pub open spec fn above_rent(lamports: u64, rent: u64) -> nat {
    if lamports > rent {
        (lamports - rent) as nat
    } else {
        0
    }
}

/// The transfers of a buy: to the vault what is not the creator's, to the
/// creator the fee, if there is one.
pub open spec fn buy_transfers(
    buyer: Seq<u8>,
    curve: Seq<u8>,
    creator: Seq<u8>,
    to_vault: int,
    fee: nat,
) -> Seq<CpiView> {
    let deposit = seq![unsigned(transfer(buyer, curve, to_vault as u64))];
    if fee > 0 {
        deposit + seq![unsigned(transfer(buyer, creator, fee as u64))]
    } else {
        deposit
    }
}

/// What a buy on a curve comes to before it is settled.
pub open spec fn buy_order(
    curve: Curve,
    accounts: Seq<Account>,
    lamports: u64,
    min_out: u64,
    rent: Result<u64, ProgramError>,
) -> Result<BuyView, ProgramError> {
    let creator_fee = share(lamports as nat, curve.buy_fee_creator_bps);
    let donation = share(lamports as nat, curve.buy_fee_floor_bps);
    let net = lamports - creator_fee - donation;
    if net == 0 {
        Err(ProgramError::Custom(E_ZERO_AMOUNT))
    } else {
        match rent {
            Err(e) => Err(e),
            Ok(rent) => if accounts[2].data@.len() < MINT_SIZE {
                Err(ProgramError::Custom(E_BAD_MINT))
            } else {
                Ok(
                    BuyView {
                        transfers: buy_transfers(
                            accounts[0].key@,
                            accounts[1].key@,
                            accounts[4].key@,
                            net + donation,
                            creator_fee,
                        ),
                        curve,
                        creator_fee,
                        donation,
                        net,
                        vault: above_rent(accounts[1].lamports, rent),
                        supply: stored_supply(accounts[2].data@),
                        min_out,
                        dest: accounts[3].key@,
                        authority: accounts[1].key@,
                    },
                )
            },
        }
    }
}

/// What a buy comes to before it is settled, with `expect` the address that the
/// curve's mint derives.
pub open spec fn buy_outcome(
    program_id: Seq<u8>,
    accounts: Seq<Account>,
    lamports: u64,
    min_out: u64,
    expect: Seq<u8>,
    rent: Result<u64, ProgramError>,
) -> Result<BuyView, ProgramError> {
    match trade_curve(program_id, accounts, true, lamports, expect) {
        Err(e) => Err(e),
        Ok(curve) => buy_order(curve, accounts, lamports, min_out, rent),
    }
}

/// A result is the outcome, calls taken by their bytes.
pub open spec fn is_buy(
    r: Result<BuyOrder, ProgramError>,
    outcome: Result<BuyView, ProgramError>,
) -> bool {
    match (r, outcome) {
        (Ok(order), Ok(view)) => order@ == view,
        (Err(e), Err(f)) => e == f,
        _ => false,
    }
}

/// The transfers of a buy.
fn plan_transfers(buyer: &Pubkey, curve: &Pubkey, creator: &Pubkey, to_vault: u64, fee: u64) -> (r:
    Vec<Cpi>)
    ensures
        cpi_views(r@) == buy_transfers(buyer@, curve@, creator@, to_vault as int, fee as nat),
{
    let mut cpis: Vec<Cpi> = Vec::new();
    cpis.push(Cpi { instruction: system_transfer(buyer, curve, to_vault), signed: false });
    if fee > 0 {
        cpis.push(Cpi { instruction: system_transfer(buyer, creator, fee), signed: false });
    }
    assert(cpi_views(cpis@) =~= buy_transfers(
        buyer@,
        curve@,
        creator@,
        to_vault as int,
        fee as nat,
    ));
    cpis
}

/// Decides on a buy on a curve.
fn order_buy(
    curve: Curve,
    accounts: &[Account],
    lamports: u64,
    min_out: u64,
    rent: Result<u64, ProgramError>,
) -> (r: Result<BuyOrder, ProgramError>)
    requires
        accounts@.len() >= 6,
        curve.fees_fit(true),
    ensures
        is_buy(r, buy_order(curve, accounts@, lamports, min_out, rent)),
{
    let split = split_buy(&curve, lamports);
    if split.net == 0 {
        return Err(err(E_ZERO_AMOUNT));
    }
    let vault: u64 = match backing(accounts[1].lamports, rent) {
        Ok(v) => v,
        Err(e) => {
            return Err(e);
        },
    };
    let supply: u64 = match parse_mint(&accounts[2].data) {
        Ok(mint) => mint.supply,
        Err(e) => {
            return Err(e);
        },
    };
    let transfers = plan_transfers(
        &accounts[0].key,
        &accounts[1].key,
        &accounts[4].key,
        split.net + split.donation,
        split.creator_fee,
    );
    Ok(
        BuyOrder {
            transfers,
            curve,
            split,
            vault,
            supply,
            min_out,
            dest: accounts[3].key,
            authority: accounts[1].key,
        },
    )
}

/// Decides on a buy, with `expect` the address that the curve's mint derives.
pub fn buy_at(
    program_id: &Pubkey,
    accounts: &[Account],
    lamports: u64,
    min_out: u64,
    expect: &Pubkey,
    rent: Result<u64, ProgramError>,
) -> (r: Result<BuyOrder, ProgramError>)
    requires
        trade_curve(program_id@, accounts@, true, lamports, expect@) matches Ok(c) ==> c.fees_fit(
            true,
        ),
    ensures
        is_buy(r, buy_outcome(program_id@, accounts@, lamports, min_out, expect@, rent)),
{
    match check_trade_at(program_id, accounts, true, lamports, expect) {
        Ok(curve) => order_buy(curve, accounts, lamports, min_out, rent),
        Err(e) => Err(e),
    }
}

/// Decides on a buy.
pub fn buy(
    program_id: &Pubkey,
    accounts: &[Account],
    lamports: u64,
    min_out: u64,
    rent: Result<u64, ProgramError>,
) -> (r: Result<BuyOrder, ProgramError>)
    requires
        trade_runs(program_id@, accounts@, true, lamports),
    ensures
        is_buy(
            r,
            buy_outcome(
                program_id@,
                accounts@,
                lamports,
                min_out,
                stored_address(program_id@, accounts@[1]),
                rent,
            ),
        ),
{
    match check_trade(program_id, accounts, true, lamports) {
        Ok(curve) => order_buy(curve, accounts, lamports, min_out, rent),
        Err(e) => Err(e),
    }
}

/// A settled buy: store the curve, then mint.
#[derive(Debug)]
pub struct BuySettlement {
    pub curve: Curve,
    pub out: u64,
    pub mint_to: Cpi,
}

/// Settles a buy once its transfers are made: the units that it mints, and the
/// curve that it leaves.
pub fn settle_buy(order: &BuyOrder) -> (r: Result<BuySettlement, ProgramError>)
    requires
        order.settles(),
    ensures
        match (
            r,
            buy_result(
                order.curve,
                order@.vault,
                order@.supply,
                order@.donation,
                order@.net as nat,
                order.min_out as nat,
            ),
        ) {
            (Ok(s), Ok((out, price))) => {
                &&& s.out == out
                &&& s.curve == curve_after_buy(order.curve, price, order@.net as nat)
                &&& s.curve.price_fp == price
                &&& s.mint_to@ == signed(
                    mint_to(order.curve.mint@, order@.dest, order@.authority, s.out),
                )
            },
            (Err(e), Err(f)) => e == f,
            _ => false,
        },
{
    match quote_buy(
        &order.curve,
        order.vault,
        order.supply,
        order.split.donation,
        order.split.net,
        order.min_out,
    ) {
        Ok((out, price)) => {
            let mut curve = order.curve;
            curve.price_fp = price;
            curve.cum_vol = order.curve.cum_vol.saturating_add(order.split.net as u128);
            let instruction = spl_mint_to(&curve.mint, &order.dest, &order.authority, out);
            Ok(BuySettlement { curve, out, mint_to: Cpi { instruction, signed: true } })
        },
        Err(e) => Err(e),
    }
}

// ---------------------------------------------------------------------------
// Sell
// ---------------------------------------------------------------------------

/// An accepted sell: burn, then move lamports from the curve's account to the
/// seller and the creator, then check what is left.
#[derive(Debug)]
pub struct SellOrder {
    pub units: u64,
    pub burn: Cpi,
    pub split: SellSplit,
    /// The lamports that leave the curve's account.
    pub vault_out: u64,
}

/// An accepted sell, by its bytes.
#[verifier::ext_equal]
pub struct SellView {
    pub units: u64,
    pub burn: CpiView,
    pub to_seller: int,
    pub creator_fee: nat,
    pub floor_keep: nat,
    pub vault_out: int,
}

impl View for SellOrder {
    type V = SellView;

    open spec fn view(&self) -> SellView {
        SellView {
            units: self.units,
            burn: self.burn@,
            to_seller: self.split.to_seller as int,
            creator_fee: self.split.creator_fee as nat,
            floor_keep: self.split.floor_keep as nat,
            vault_out: self.vault_out as int,
        }
    }
}

/// What a sell on a curve comes to.
pub open spec fn sell_order(
    curve: Curve,
    accounts: Seq<Account>,
    units: u64,
    min_out: u64,
    rent: Result<u64, ProgramError>,
) -> Result<SellView, ProgramError> {
    let supply = stored_supply(accounts[2].data@);
    if accounts[2].data@.len() < MINT_SIZE {
        Err(ProgramError::Custom(E_BAD_MINT))
    } else if units > supply {
        Err(ProgramError::Custom(E_ZERO_AMOUNT))
    } else {
        match rent {
            Err(e) => Err(e),
            Ok(rent) => {
                let vault = above_rent(accounts[1].lamports, rent);
                let to_seller = sell_payout(curve, vault, supply, units as nat);
                let creator_fee = sell_fee(curve, vault, supply, units as nat);
                if to_seller < min_out {
                    Err(ProgramError::Custom(E_SLIPPAGE))
                } else {
                    Ok(
                        SellView {
                            units,
                            burn: unsigned(
                                burn(
                                    accounts[3].key@,
                                    accounts[2].key@,
                                    accounts[0].key@,
                                    units,
                                ),
                            ),
                            to_seller,
                            creator_fee,
                            floor_keep: sell_kept(curve, vault, supply, units as nat),
                            vault_out: to_seller + creator_fee,
                        },
                    )
                }
            },
        }
    }
}

/// What a sell comes to, with `expect` the address that the curve's mint
/// derives.
pub open spec fn sell_outcome(
    program_id: Seq<u8>,
    accounts: Seq<Account>,
    units: u64,
    min_out: u64,
    expect: Seq<u8>,
    rent: Result<u64, ProgramError>,
) -> Result<SellView, ProgramError> {
    match trade_curve(program_id, accounts, false, units, expect) {
        Err(e) => Err(e),
        Ok(curve) => sell_order(curve, accounts, units, min_out, rent),
    }
}

/// A result is the outcome, calls taken by their bytes.
pub open spec fn is_sell(
    r: Result<SellOrder, ProgramError>,
    outcome: Result<SellView, ProgramError>,
) -> bool {
    match (r, outcome) {
        (Ok(order), Ok(view)) => order@ == view,
        (Err(e), Err(f)) => e == f,
        _ => false,
    }
}

/// Decides on a sell on a curve.
fn order_sell(
    curve: Curve,
    accounts: &[Account],
    units: u64,
    min_out: u64,
    rent: Result<u64, ProgramError>,
) -> (r: Result<SellOrder, ProgramError>)
    requires
        accounts@.len() >= 6,
        units > 0,
        curve.fees_fit(false),
    ensures
        is_sell(r, sell_order(curve, accounts@, units, min_out, rent)),
        r matches Ok(order) ==> order.vault_out <= above_rent(accounts@[1].lamports, rent->Ok_0),
{
    let supply: u64 = match parse_mint(&accounts[2].data) {
        Ok(mint) => mint.supply,
        Err(e) => {
            return Err(e);
        },
    };
    if supply == 0 || units > supply {
        return Err(err(E_ZERO_AMOUNT));
    }
    let vault: u64 = match backing(accounts[1].lamports, rent) {
        Ok(v) => v,
        Err(e) => {
            return Err(e);
        },
    };
    let split = match quote_sell(&curve, vault, supply, units, min_out) {
        Ok(split) => split,
        Err(e) => {
            return Err(e);
        },
    };
    let instruction = spl_burn(&accounts[3].key, &accounts[2].key, &accounts[0].key, units);
    Ok(
        SellOrder {
            units,
            burn: Cpi { instruction, signed: false },
            split,
            vault_out: split.to_seller + split.creator_fee,
        },
    )
}

/// Decides on a sell, with `expect` the address that the curve's mint derives.
pub fn sell_at(
    program_id: &Pubkey,
    accounts: &[Account],
    units: u64,
    min_out: u64,
    expect: &Pubkey,
    rent: Result<u64, ProgramError>,
) -> (r: Result<SellOrder, ProgramError>)
    requires
        trade_curve(program_id@, accounts@, false, units, expect@) matches Ok(c) ==> c.fees_fit(
            false,
        ),
    ensures
        is_sell(r, sell_outcome(program_id@, accounts@, units, min_out, expect@, rent)),
        r matches Ok(order) ==> order.vault_out <= above_rent(accounts@[1].lamports, rent->Ok_0),
{
    match check_trade_at(program_id, accounts, false, units, expect) {
        Ok(curve) => order_sell(curve, accounts, units, min_out, rent),
        Err(e) => Err(e),
    }
}

/// Decides on a sell.
pub fn sell(
    program_id: &Pubkey,
    accounts: &[Account],
    units: u64,
    min_out: u64,
    rent: Result<u64, ProgramError>,
) -> (r: Result<SellOrder, ProgramError>)
    requires
        trade_runs(program_id@, accounts@, false, units),
    ensures
        is_sell(
            r,
            sell_outcome(
                program_id@,
                accounts@,
                units,
                min_out,
                stored_address(program_id@, accounts@[1]),
                rent,
            ),
        ),
        r matches Ok(order) ==> order.vault_out <= above_rent(accounts@[1].lamports, rent->Ok_0),
{
    match check_trade(program_id, accounts, false, units) {
        Ok(curve) => order_sell(curve, accounts, units, min_out, rent),
        Err(e) => Err(e),
    }
}

/// The last check of a sell, on what the curve's account holds after it: it has
/// to keep its rent.
pub fn finish_sell(curve_lamports: u64, rent: Result<u64, ProgramError>) -> (r: Result<
    (),
    ProgramError,
>)
    ensures
        r == match rent {
            Err(e) => Err::<(), ProgramError>(e),
            Ok(rent) => if curve_lamports < rent {
                Err(ProgramError::Custom(E_INSUFFICIENT_VAULT))
            } else {
                Ok(())
            },
        },
{
    match rent {
        Err(e) => Err(e),
        Ok(rent) => if curve_lamports < rent {
            Err(err(E_INSUFFICIENT_VAULT))
        } else {
            Ok(())
        },
    }
}

// ---------------------------------------------------------------------------
// Dispatch
// ---------------------------------------------------------------------------

/// What an accepted instruction leaves to be done.
#[derive(Debug)]
pub enum Pending {
    Initialize(InitializePlan),
    Buy(BuyOrder),
    Sell(SellOrder),
}

/// What an accepted instruction leaves to be done, by its bytes.
#[verifier::ext_equal]
pub enum PendingView {
    Initialize(InitializeView),
    Buy(BuyView),
    Sell(SellView),
}

impl View for Pending {
    type V = PendingView;

    open spec fn view(&self) -> PendingView {
        match *self {
            Pending::Initialize(plan) => PendingView::Initialize(plan@),
            Pending::Buy(order) => PendingView::Buy(order@),
            Pending::Sell(order) => PendingView::Sell(order@),
        }
    }
}

/// The configuration that a launch carries.
pub open spec fn launch_cfg(ix: CurveInstruction) -> LaunchCfg
    recommends
        ix is Initialize,
{
    LaunchCfg {
        start_price_fp: ix->start_price_fp,
        double_vol: ix->double_vol,
        buy_fee_creator_bps: ix->buy_fee_creator_bps,
        buy_fee_floor_bps: ix->buy_fee_floor_bps,
        sell_fee_creator_bps: ix->sell_fee_creator_bps,
        sell_fee_floor_bps: ix->sell_fee_floor_bps,
        min_backing_bps: ix->min_backing_bps,
    }
}

/// The instruction, if `data` sends one, can be decided on: the addresses it
/// derives exist, and the fees of the curve it trades on take at most everything.
pub open spec fn instruction_runs(program_id: Seq<u8>, accounts: Seq<Account>, data: Seq<u8>) -> bool {
    match sent_instruction(data) {
        None => true,
        Some(ix) => match ix {
            CurveInstruction::Initialize { .. } => initialize_runs(
                program_id,
                accounts,
                launch_cfg(ix),
            ),
            CurveInstruction::Buy { lamports, .. } => trade_runs(
                program_id,
                accounts,
                true,
                lamports,
            ),
            CurveInstruction::Sell { units, .. } => trade_runs(program_id, accounts, false, units),
        },
    }
}

/// What an instruction comes to.
pub open spec fn instruction_outcome(
    program_id: Seq<u8>,
    accounts: Seq<Account>,
    data: Seq<u8>,
    rent: Result<u64, ProgramError>,
) -> Result<PendingView, ProgramError> {
    match sent_instruction(data) {
        None => Err(ProgramError::BorshIoError),
        Some(ix) => match ix {
            CurveInstruction::Initialize { buy_creator, sell_creator, .. } => match launch_outcome(
                program_id,
                accounts,
                buy_creator,
                sell_creator,
                launch_cfg(ix),
                rent,
            ) {
                Ok(plan) => Ok(PendingView::Initialize(plan)),
                Err(e) => Err(e),
            },
            CurveInstruction::Buy { lamports, min_out } => match buy_outcome(
                program_id,
                accounts,
                lamports,
                min_out,
                stored_address(program_id, accounts[1]),
                rent,
            ) {
                Ok(order) => Ok(PendingView::Buy(order)),
                Err(e) => Err(e),
            },
            CurveInstruction::Sell { units, min_out } => match sell_outcome(
                program_id,
                accounts,
                units,
                min_out,
                stored_address(program_id, accounts[1]),
                rent,
            ) {
                Ok(order) => Ok(PendingView::Sell(order)),
                Err(e) => Err(e),
            },
        },
    }
}

/// A result is the outcome, calls taken by their bytes.
pub open spec fn is_pending(
    r: Result<Pending, ProgramError>,
    outcome: Result<PendingView, ProgramError>,
) -> bool {
    match (r, outcome) {
        (Ok(pending), Ok(view)) => pending@ == view,
        (Err(e), Err(f)) => e == f,
        _ => false,
    }
}

/// Decides on the instruction that `data` sends.
pub fn process_instruction(
    program_id: &Pubkey,
    accounts: &[Account],
    data: &[u8],
    rent: Result<u64, ProgramError>,
) -> (r: Result<Pending, ProgramError>)
    requires
        instruction_runs(program_id@, accounts@, data@),
    ensures
        is_pending(r, instruction_outcome(program_id@, accounts@, data@, rent)),
{
    match decode_instruction(data) {
        Err(e) => Err(e),
        Ok(
            CurveInstruction::Initialize {
                buy_creator,
                sell_creator,
                start_price_fp,
                double_vol,
                buy_fee_creator_bps,
                buy_fee_floor_bps,
                sell_fee_creator_bps,
                sell_fee_floor_bps,
                min_backing_bps,
            },
        ) => {
            let cfg = LaunchCfg {
                start_price_fp,
                double_vol,
                buy_fee_creator_bps,
                buy_fee_floor_bps,
                sell_fee_creator_bps,
                sell_fee_floor_bps,
                min_backing_bps,
            };
            match initialize(program_id, accounts, buy_creator, sell_creator, &cfg, rent) {
                Ok(plan) => Ok(Pending::Initialize(plan)),
                Err(e) => Err(e),
            }
        },
        Ok(CurveInstruction::Buy { lamports, min_out }) => match buy(
            program_id,
            accounts,
            lamports,
            min_out,
            rent,
        ) {
            Ok(order) => Ok(Pending::Buy(order)),
            Err(e) => Err(e),
        },
        Ok(CurveInstruction::Sell { units, min_out }) => match sell(
            program_id,
            accounts,
            units,
            min_out,
            rent,
        ) {
            Ok(order) => Ok(Pending::Sell(order)),
            Err(e) => Err(e),
        },
    }
}

/// Whether a launch can be decided on.
fn can_initialize(program_id: &Pubkey, accounts: &[Account], cfg: &LaunchCfg) -> (r: bool)
    ensures
        r == initialize_runs(program_id@, accounts@, *cfg),
{
    match refuse_initialize(accounts, cfg) {
        Some(_) => true,
        None => try_curve_pda(program_id, &accounts[2].key).is_some(),
    }
}

/// Whether a trade can be decided on.
fn can_trade(program_id: &Pubkey, accounts: &[Account], buying: bool, amount: u64) -> (r: bool)
    ensures
        r == trade_runs(program_id@, accounts@, buying, amount),
{
    if refuse_trade(accounts, buying, amount).is_some() {
        return true;
    }
    match read_owned_curve(program_id, &accounts[1]) {
        Err(_) => true,
        Ok(curve) => try_curve_pda(program_id, &curve.mint).is_some() && (check_trade(
            program_id,
            accounts,
            buying,
            amount,
        ).is_err() || curve.check_fees(buying)),
    }
}

/// Decides on the instruction that `data` sends; `None` where it cannot be
/// decided on.
pub fn try_process_instruction(
    program_id: &Pubkey,
    accounts: &[Account],
    data: &[u8],
    rent: Result<u64, ProgramError>,
) -> (r: Option<Result<Pending, ProgramError>>)
    ensures
        r is Some <==> instruction_runs(program_id@, accounts@, data@),
        r matches Some(x) ==> is_pending(
            x,
            instruction_outcome(program_id@, accounts@, data@, rent),
        ),
{
    let runs: bool = match decode_instruction(data) {
        Err(_) => true,
        Ok(
            CurveInstruction::Initialize {
                start_price_fp,
                double_vol,
                buy_fee_creator_bps,
                buy_fee_floor_bps,
                sell_fee_creator_bps,
                sell_fee_floor_bps,
                min_backing_bps,
                ..
            },
        ) => can_initialize(
            program_id,
            accounts,
            &LaunchCfg {
                start_price_fp,
                double_vol,
                buy_fee_creator_bps,
                buy_fee_floor_bps,
                sell_fee_creator_bps,
                sell_fee_floor_bps,
                min_backing_bps,
            },
        ),
        Ok(CurveInstruction::Buy { lamports, .. }) => can_trade(
            program_id,
            accounts,
            true,
            lamports,
        ),
        Ok(CurveInstruction::Sell { units, .. }) => can_trade(program_id, accounts, false, units),
    };
    if runs {
        Some(process_instruction(program_id, accounts, data, rent))
    } else {
        None
    }
}

} // verus!
