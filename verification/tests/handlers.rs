//! What the on-chain program decides.

use notch::address::curve_pda;
use notch::client;
use notch::error::{
    err, ProgramError, E_ALREADY_INIT, E_BAD_CREATOR, E_BAD_MINT, E_BAD_PARAMS, E_BAD_PDA,
    E_BAD_TOKEN_ACCOUNT, E_INSUFFICIENT_VAULT, E_SLIPPAGE, E_ZERO_AMOUNT,
};
use notch::instruction::Instruction;
use notch::key::Pubkey;
use notch::program::{
    buy, buy_at, finish_sell, initialize, initialize_at, load_curve, load_curve_at,
    process_instruction, sell, sell_at, settle_buy, signer_seeds, try_process_instruction,
    Account, BuyOrder, Cpi, InitializePlan, Pending, SellOrder,
};
use notch::program_ids::{SYSTEM_PROGRAM, TOKEN_PROGRAM};
use notch::schedule::reference_cfg;
use notch::state::{
    encode_instruction, parse_curve, store_curve, Curve, CurveInstruction, LaunchCfg, CURVE_SIZE,
};

const RENT: u64 = 1_914_000;
const SOL: u64 = 1_000_000_000;

fn key(n: u8) -> Pubkey {
    Pubkey { bytes: [n; 32] }
}

fn program() -> Pubkey {
    key(77)
}

fn account(key: Pubkey) -> Account {
    Account {
        key,
        owner: Pubkey { bytes: SYSTEM_PROGRAM },
        is_signer: false,
        lamports: 0,
        data: Vec::new(),
    }
}

fn mint_data(authority: &Pubkey, supply: u64) -> Vec<u8> {
    let mut data = vec![0; 82];
    data[0] = 1;
    data[4..36].copy_from_slice(&authority.bytes);
    data[36..44].copy_from_slice(&supply.to_le_bytes());
    data[44] = 9;
    data[45] = 1;
    data
}

fn pda() -> Pubkey {
    curve_pda(&program(), &key(5)).0
}

/// Accounts that a launch of the mint `5` by `1` names.
fn launch_accounts() -> Vec<Account> {
    let mut payer = account(key(1));
    payer.is_signer = true;
    let mut mint = account(key(5));
    mint.owner = Pubkey { bytes: TOKEN_PROGRAM };
    mint.data = mint_data(&pda(), 0);
    vec![payer, account(pda()), mint, account(Pubkey { bytes: SYSTEM_PROGRAM })]
}

fn launch(accounts: &[Account], cfg: &LaunchCfg) -> Result<InitializePlan, ProgramError> {
    initialize_at(&program(), accounts, key(2), key(3), cfg, &pda(), 250, Ok(RENT))
}

fn launched() -> Curve {
    let mut c = launch(&launch_accounts(), &reference_cfg()).unwrap().curve;
    c.bump = 250;
    c
}

/// Accounts that a trade by `1` names, with `vault` lamports above the rent.
fn trade_accounts(curve: &Curve, vault: u64, supply: u64, buying: bool) -> Vec<Account> {
    let mut trader = account(key(1));
    trader.is_signer = true;
    let mut curve_ai = account(pda());
    curve_ai.owner = program();
    curve_ai.lamports = RENT + vault;
    curve_ai.data = vec![0; CURVE_SIZE];
    store_curve(curve, &mut curve_ai.data).unwrap();
    let mut mint = account(key(5));
    mint.owner = Pubkey { bytes: TOKEN_PROGRAM };
    mint.data = mint_data(&pda(), supply);
    let mut tokens = account(key(9));
    tokens.data = vec![0; 165];
    tokens.data[..32].copy_from_slice(&[5; 32]);
    let creator = account(if buying { key(2) } else { key(3) });
    let token = account(Pubkey { bytes: TOKEN_PROGRAM });
    let system = account(Pubkey { bytes: SYSTEM_PROGRAM });
    vec![trader, curve_ai, mint, tokens, creator, token, system]
}

fn try_buy(accounts: &[Account], lamports: u64) -> Result<BuyOrder, ProgramError> {
    buy_at(&program(), accounts, lamports, 0, &pda(), Ok(RENT))
}

fn try_sell(accounts: &[Account], units: u64) -> Result<SellOrder, ProgramError> {
    sell_at(&program(), accounts, units, 0, &pda(), Ok(RENT))
}

fn outside(ix: solana_program::instruction::Instruction) -> Instruction {
    Instruction {
        program_id: Pubkey { bytes: ix.program_id.to_bytes() },
        accounts: ix
            .accounts
            .iter()
            .map(|m| notch::instruction::AccountMeta {
                pubkey: Pubkey { bytes: m.pubkey.to_bytes() },
                is_signer: m.is_signer,
                is_writable: m.is_writable,
            })
            .collect(),
        data: ix.data,
    }
}

fn is_call(cpi: &Cpi, signed: bool, ix: &Instruction) -> bool {
    let metas = |ix: &Instruction| -> Vec<([u8; 32], bool, bool)> {
        ix.accounts.iter().map(|m| (m.pubkey.bytes, m.is_signer, m.is_writable)).collect()
    };
    cpi.signed == signed
        && cpi.instruction.program_id == ix.program_id
        && metas(&cpi.instruction) == metas(ix)
        && cpi.instruction.data == ix.data
}

fn custom<T>(r: Result<T, ProgramError>, code: u32) -> bool {
    matches!(r, Err(ProgramError::Custom(c)) if c == code)
}

#[test]
fn error_codes_are_custom_errors() {
    assert_eq!(err(7), ProgramError::Custom(7));
}

#[test]
fn launch_creates_the_account_and_the_curve() {
    let plan = launch(&launch_accounts(), &reference_cfg()).unwrap();
    assert_eq!(plan.cpis.len(), 1);
    let create = outside(solana_program::system_instruction::create_account(
        &[1; 32].into(),
        &pda().bytes.into(),
        RENT,
        147,
        &program().bytes.into(),
    ));
    assert!(is_call(&plan.cpis[0], true, &create));
    let c = plan.curve;
    assert!(c.mint == key(5) && c.buy_creator == key(2) && c.sell_creator == key(3));
    assert_eq!((c.price_fp, c.double_vol), (1_000_000_000_000_000_000, 25 * SOL));
    assert_eq!((c.buy_fee_creator_bps, c.buy_fee_floor_bps), (100, 200));
    assert_eq!((c.sell_fee_creator_bps, c.sell_fee_floor_bps), (100, 500));
    assert_eq!((c.min_backing_bps, c.cum_vol, c.bump), (9_350, 0, 250));
    assert!(c.check_fees(true) && c.check_fees(false));
}

#[test]
fn launch_at_a_funded_address_tops_up_allocates_and_assigns() {
    let mut accounts = launch_accounts();
    accounts[1].lamports = 1_000;
    let plan = launch(&accounts, &reference_cfg()).unwrap();
    assert_eq!(plan.cpis.len(), 3);
    let transfer = outside(solana_program::system_instruction::transfer(
        &[1; 32].into(),
        &pda().bytes.into(),
        RENT - 1_000,
    ));
    let allocate =
        outside(solana_program::system_instruction::allocate(&pda().bytes.into(), 147));
    let assign = outside(solana_program::system_instruction::assign(
        &pda().bytes.into(),
        &program().bytes.into(),
    ));
    assert!(is_call(&plan.cpis[0], false, &transfer));
    assert!(is_call(&plan.cpis[1], true, &allocate));
    assert!(is_call(&plan.cpis[2], true, &assign));
    assert_eq!(&plan.cpis[0].instruction.data[..4], &[2, 0, 0, 0]);
    assert_eq!(&plan.cpis[1].instruction.data[..4], &[8, 0, 0, 0]);
    assert_eq!(&plan.cpis[2].instruction.data[..4], &[1, 0, 0, 0]);
    accounts[1].lamports = RENT;
    let plan = launch(&accounts, &reference_cfg()).unwrap();
    assert_eq!(plan.cpis.len(), 2);
    assert!(is_call(&plan.cpis[0], true, &allocate));
}

#[test]
fn launch_checks_come_in_order() {
    let cfg = reference_cfg();
    assert_eq!(
        launch(&launch_accounts()[..3], &cfg).err(),
        Some(ProgramError::NotEnoughAccountKeys)
    );
    let mut accounts = launch_accounts();
    accounts[0].is_signer = false;
    accounts[3].key = key(8);
    assert_eq!(launch(&accounts, &cfg).err(), Some(ProgramError::MissingRequiredSignature));
    accounts[0].is_signer = true;
    let bad = LaunchCfg { min_backing_bps: 8_000, ..cfg };
    assert_eq!(launch(&accounts, &bad).err(), Some(ProgramError::IncorrectProgramId));
    accounts[3].key = Pubkey { bytes: SYSTEM_PROGRAM };
    accounts[1].key = key(6);
    assert!(custom(launch(&accounts, &bad), E_BAD_PARAMS));
    accounts[1].data = vec![0];
    assert!(custom(launch(&accounts, &cfg), E_BAD_PDA));
    accounts[1].key = pda();
    accounts[2].owner = key(8);
    assert!(custom(launch(&accounts, &cfg), E_ALREADY_INIT));
    accounts[1].data = Vec::new();
    accounts[1].owner = program();
    assert!(custom(launch(&accounts, &cfg), E_ALREADY_INIT));
    accounts[1].owner = Pubkey { bytes: SYSTEM_PROGRAM };
    assert!(custom(launch(&accounts, &cfg), E_BAD_MINT));
    accounts[2].owner = Pubkey { bytes: TOKEN_PROGRAM };
    let runtime = Err(ProgramError::Runtime(5));
    let r = initialize_at(&program(), &accounts, key(2), key(3), &cfg, &pda(), 1, runtime);
    assert_eq!(r.err(), Some(ProgramError::Runtime(5)));
}

#[test]
fn launch_backings() {
    for (bps, ok) in [(4_000u16, false), (0, false), (8_000, false), (8_500, true)] {
        let cfg = LaunchCfg { min_backing_bps: bps, ..reference_cfg() };
        assert_eq!(launch(&launch_accounts(), &cfg).is_ok(), ok);
    }
}

#[test]
fn launch_needs_an_untouched_mint() {
    let good = mint_data(&pda(), 0);
    let mut wrong = vec![good[..81].to_vec(), mint_data(&pda(), 1), mint_data(&key(1), 0)];
    for (at, byte) in [(0, 0u8), (44, 6), (45, 0), (46, 1)] {
        let mut data = good.clone();
        data[at] = byte;
        wrong.push(data);
    }
    for data in wrong {
        let mut accounts = launch_accounts();
        accounts[2].data = data;
        assert!(custom(launch(&accounts, &reference_cfg()), E_BAD_MINT));
    }
}

#[test]
fn launch_derives_its_address() {
    let accounts = launch_accounts();
    let cfg = reference_cfg();
    let plan = initialize(&program(), &accounts, key(2), key(3), &cfg, Ok(RENT)).unwrap();
    assert_eq!(plan.curve.bump, curve_pda(&program(), &key(5)).1);
    let other = initialize(&key(78), &accounts, key(2), key(3), &cfg, Ok(RENT));
    assert!(custom(other, E_BAD_PDA));
}

#[test]
fn buy_pays_vault_and_creator() {
    let accounts = trade_accounts(&launched(), 0, 0, true);
    let order = try_buy(&accounts, SOL).unwrap();
    assert_eq!(order.transfers.len(), 2);
    let deposit = outside(solana_program::system_instruction::transfer(
        &[1; 32].into(),
        &pda().bytes.into(),
        990_000_000,
    ));
    let fee = outside(solana_program::system_instruction::transfer(
        &[1; 32].into(),
        &[2; 32].into(),
        10_000_000,
    ));
    assert!(is_call(&order.transfers[0], false, &deposit));
    assert!(is_call(&order.transfers[1], false, &fee));
    assert_eq!((order.vault, order.supply, order.min_out), (0, 0, 0));
    let tiny = try_buy(&accounts, 99).unwrap();
    assert_eq!(tiny.transfers.len(), 1);
}

#[test]
fn buy_settles() {
    let accounts = trade_accounts(&launched(), 990_000_000, 970_000_000, true);
    let order = try_buy(&accounts, SOL).unwrap();
    assert_eq!((order.vault, order.supply), (990_000_000, 970_000_000));
    let done = settle_buy(&order).unwrap();
    assert_eq!(done.out, 850_175_241);
    assert_eq!(done.curve.price_fp, 1_163_430_317_654_523_798);
    assert_eq!(done.curve.cum_vol, 970_000_000);
    assert!(done.mint_to.signed);
    assert_eq!(done.mint_to.instruction.program_id.bytes, TOKEN_PROGRAM);
    let mut data = vec![7];
    data.extend_from_slice(&850_175_241u64.to_le_bytes());
    assert_eq!(done.mint_to.instruction.data, data);
    let keys: Vec<([u8; 32], bool, bool)> = done
        .mint_to
        .instruction
        .accounts
        .iter()
        .map(|m| (m.pubkey.bytes, m.is_signer, m.is_writable))
        .collect();
    assert_eq!(
        keys,
        vec![([5; 32], false, true), ([9; 32], false, true), (pda().bytes, true, false)]
    );
}

#[test]
fn buy_below_the_minimum_is_not_settled() {
    let accounts = trade_accounts(&launched(), 0, 0, true);
    let order = buy_at(&program(), &accounts, SOL, u64::MAX, &pda(), Ok(RENT)).unwrap();
    assert!(custom(settle_buy(&order), E_SLIPPAGE));
}

#[test]
fn volume_saturates() {
    let curve = Curve { cum_vol: u128::MAX - 1, ..launched() };
    let order = try_buy(&trade_accounts(&curve, 0, 0, true), SOL).unwrap();
    assert_eq!(settle_buy(&order).unwrap().curve.cum_vol, u128::MAX);
}

#[test]
fn buy_checks_come_in_order() {
    let curve = launched();
    let fresh = || trade_accounts(&curve, 0, 0, true);
    assert_eq!(try_buy(&fresh()[..6], SOL).err(), Some(ProgramError::NotEnoughAccountKeys));
    let mut accounts = fresh();
    accounts[0].is_signer = false;
    accounts[5].key = key(8);
    assert_eq!(try_buy(&accounts, SOL).err(), Some(ProgramError::MissingRequiredSignature));
    accounts[0].is_signer = true;
    assert_eq!(try_buy(&accounts, 0).err(), Some(ProgramError::IncorrectProgramId));
    accounts = fresh();
    accounts[6].key = key(8);
    assert_eq!(try_buy(&accounts, 0).err(), Some(ProgramError::IncorrectProgramId));
    accounts = fresh();
    accounts[1].owner = key(8);
    assert!(custom(try_buy(&accounts, 0), E_ZERO_AMOUNT));
    assert!(custom(try_buy(&accounts, SOL), E_BAD_PDA));
    accounts[1].owner = program();
    accounts[1].data.pop();
    assert_eq!(try_buy(&accounts, SOL).err(), Some(ProgramError::BorshIoError));
    accounts = fresh();
    accounts[1].key = key(8);
    accounts[4].key = key(8);
    assert!(custom(try_buy(&accounts, SOL), E_BAD_PDA));
    accounts[1].key = pda();
    accounts[2].key = key(8);
    assert!(custom(try_buy(&accounts, SOL), E_BAD_PDA));
    accounts[2].key = key(5);
    accounts[3].data[0] = 8;
    assert!(custom(try_buy(&accounts, SOL), E_BAD_CREATOR));
    accounts[4].key = key(2);
    assert!(custom(try_buy(&accounts, SOL), E_BAD_TOKEN_ACCOUNT));
    accounts[3].data.truncate(71);
    assert!(custom(try_buy(&accounts, SOL), E_BAD_TOKEN_ACCOUNT));
    accounts = fresh();
    accounts[2].data.pop();
    assert!(custom(try_buy(&accounts, SOL), E_BAD_MINT));
    let r = buy_at(&program(), &accounts, SOL, 0, &pda(), Err(ProgramError::Runtime(4)));
    assert_eq!(r.err(), Some(ProgramError::Runtime(4)));
    let greedy = Curve { buy_fee_creator_bps: 5_000, buy_fee_floor_bps: 5_000, ..curve };
    assert!(custom(try_buy(&trade_accounts(&greedy, 0, 0, true), 2), E_ZERO_AMOUNT));
}

#[test]
fn sell_burns_and_pays() {
    let accounts = trade_accounts(&launched(), 2_970_000_000, 2_634_374_032, false);
    let order = try_sell(&accounts, 1_317_187_016).unwrap();
    assert_eq!(order.split.to_seller, 1_395_900_000);
    assert_eq!(order.split.creator_fee, 14_850_000);
    assert_eq!(order.split.floor_keep, 74_250_000);
    assert_eq!((order.units, order.vault_out), (1_317_187_016, 1_410_750_000));
    assert!(!order.burn.signed);
    let mut data = vec![8];
    data.extend_from_slice(&1_317_187_016u64.to_le_bytes());
    assert_eq!(order.burn.instruction.data, data);
    let keys: Vec<([u8; 32], bool, bool)> = order
        .burn
        .instruction
        .accounts
        .iter()
        .map(|m| (m.pubkey.bytes, m.is_signer, m.is_writable))
        .collect();
    assert_eq!(
        keys,
        vec![([9; 32], false, true), ([5; 32], false, true), ([1; 32], true, false)]
    );
}

#[test]
fn sell_checks_come_in_order() {
    let curve = launched();
    let fresh = || trade_accounts(&curve, 1_000, 100, false);
    assert!(try_sell(&fresh()[..6], 50).is_ok());
    assert_eq!(try_sell(&fresh()[..5], 50).err(), Some(ProgramError::NotEnoughAccountKeys));
    let mut accounts = fresh();
    accounts[0].is_signer = false;
    assert_eq!(try_sell(&accounts, 0).err(), Some(ProgramError::MissingRequiredSignature));
    accounts[0].is_signer = true;
    accounts[5].key = key(8);
    assert_eq!(try_sell(&accounts, 0).err(), Some(ProgramError::IncorrectProgramId));
    accounts = fresh();
    assert!(custom(try_sell(&accounts, 0), E_ZERO_AMOUNT));
    accounts[4].key = key(2);
    assert!(custom(try_sell(&accounts, 50), E_BAD_CREATOR));
    accounts = fresh();
    assert!(custom(try_sell(&accounts, 101), E_ZERO_AMOUNT));
    let r = sell_at(&program(), &accounts, 101, 0, &pda(), Err(ProgramError::Runtime(4)));
    assert!(custom(r, E_ZERO_AMOUNT));
    let r = sell_at(&program(), &accounts, 50, 0, &pda(), Err(ProgramError::Runtime(4)));
    assert_eq!(r.err(), Some(ProgramError::Runtime(4)));
    let r = sell_at(&program(), &accounts, 50, 471, &pda(), Ok(RENT));
    assert!(custom(r, E_SLIPPAGE));
    accounts[2].data.pop();
    assert!(custom(try_sell(&accounts, 101), E_BAD_MINT));
    assert!(custom(try_sell(&trade_accounts(&curve, 1_000, 0, false), 1), E_ZERO_AMOUNT));
}

#[test]
fn sell_has_to_leave_the_rent() {
    assert_eq!(finish_sell(RENT, Ok(RENT)), Ok(()));
    assert!(custom(finish_sell(RENT - 1, Ok(RENT)), E_INSUFFICIENT_VAULT));
    assert_eq!(finish_sell(0, Err(ProgramError::Runtime(1))), Err(ProgramError::Runtime(1)));
    let accounts = trade_accounts(&launched(), 1_000, 100, false);
    let order = try_sell(&accounts, 100).unwrap();
    assert_eq!(order.vault_out, 1_000);
    assert_eq!(finish_sell(accounts[1].lamports - order.vault_out, Ok(RENT)), Ok(()));
}

#[test]
fn instructions_are_dispatched() {
    let data = client::initialize(
        &program(), &key(1), &key(2), &key(3), &key(5), &reference_cfg(),
    ).data;
    let r = process_instruction(&program(), &launch_accounts(), &data, Ok(RENT));
    assert!(matches!(r, Ok(Pending::Initialize(_))));
    let accounts = trade_accounts(&launched(), 990_000_000, 970_000_000, true);
    let data = encode_instruction(&CurveInstruction::Buy { lamports: SOL, min_out: 5 });
    match process_instruction(&program(), &accounts, &data, Ok(RENT)) {
        Ok(Pending::Buy(order)) => assert_eq!((order.split.net, order.min_out), (970_000_000, 5)),
        other => panic!("{other:?}"),
    }
    let accounts = trade_accounts(&launched(), 1_000, 100, false);
    let data = encode_instruction(&CurveInstruction::Sell { units: 50, min_out: 470 });
    match try_process_instruction(&program(), &accounts, &data, Ok(RENT)) {
        Some(Ok(Pending::Sell(order))) => assert_eq!(order.vault_out, 475),
        other => panic!("{other:?}"),
    }
    let r = process_instruction(&program(), &accounts, &[9], Ok(RENT));
    assert_eq!(r.err(), Some(ProgramError::BorshIoError));
}

#[test]
fn trades_derive_the_curve_address() {
    let mut accounts = trade_accounts(&launched(), 1_000, 100, false);
    assert!(sell(&program(), &accounts, 50, 0, Ok(RENT)).is_ok());
    accounts[1].key = key(8);
    assert!(custom(sell(&program(), &accounts, 50, 0, Ok(RENT)), E_BAD_PDA));
    let mut accounts = trade_accounts(&launched(), 1_000, 100, true);
    assert!(buy(&program(), &accounts, 50, 0, Ok(RENT)).is_ok());
    accounts[1].key = key(8);
    assert!(custom(buy(&program(), &accounts, 50, 0, Ok(RENT)), E_BAD_PDA));
}

#[test]
fn impossible_fees_are_not_decided_on() {
    let greedy = Curve { buy_fee_floor_bps: 9_901, ..launched() };
    let mut accounts = trade_accounts(&greedy, 1_000, 100, true);
    let data = encode_instruction(&CurveInstruction::Buy { lamports: SOL, min_out: 0 });
    assert!(try_process_instruction(&program(), &accounts, &data, Ok(RENT)).is_none());
    // One that its accounts refuse is.
    accounts[4].key = key(8);
    let r = try_process_instruction(&program(), &accounts, &data, Ok(RENT)).unwrap();
    assert!(custom(r, E_BAD_CREATOR));
    // The fees of a sell are fine.
    let accounts = trade_accounts(&greedy, 1_000, 100, false);
    let data = encode_instruction(&CurveInstruction::Sell { units: 50, min_out: 0 });
    assert!(try_process_instruction(&program(), &accounts, &data, Ok(RENT)).unwrap().is_ok());
}

#[test]
fn first_buy_needs_price_and_backing_to_settle() {
    for (curve, supply, settles) in [
        (launched(), 0, true),
        (Curve { price_fp: 0, ..launched() }, 0, false),
        (Curve { min_backing_bps: 0, ..launched() }, 0, false),
        (Curve { price_fp: 0, ..launched() }, 100, true),
    ] {
        let order = try_buy(&trade_accounts(&curve, 1_000, supply, true), SOL).unwrap();
        assert_eq!(order.can_settle(), settles);
    }
    let still = Curve { min_backing_bps: 0, ..launched() };
    let order = try_buy(&trade_accounts(&still, 1_000, 100, true), SOL).unwrap();
    assert!(order.can_settle());
    assert!(custom(settle_buy(&order), E_SLIPPAGE));
}

#[test]
fn curve_signs_with_its_seeds() {
    let (address, bump) = curve_pda(&program(), &key(5));
    let seeds = signer_seeds(&key(5), bump);
    let slices: Vec<&[u8]> = seeds.iter().map(|s| s.as_slice()).collect();
    let made = solana_program::pubkey::Pubkey::create_program_address(
        &slices,
        &program().bytes.into(),
    );
    assert_eq!(made.unwrap().to_bytes(), address.bytes);
}

#[test]
fn life_of_a_token() {
    // Launch, two buys, one sell, full exit, with the stored bytes carried on.
    let plan = launch(&launch_accounts(), &reference_cfg()).unwrap();
    let mut data = vec![0; CURVE_SIZE];
    store_curve(&plan.curve, &mut data).unwrap();
    let (mut vault, mut supply) = (0u64, 0u64);
    for _ in 0..2 {
        let curve = parse_curve(&data).unwrap();
        let order = try_buy(&trade_accounts(&curve, vault, supply, true), SOL).unwrap();
        let done = settle_buy(&order).unwrap();
        vault += order.split.net + order.split.donation;
        supply += done.out;
        assert!(done.curve.price_fp > curve.price_fp);
        store_curve(&done.curve, &mut data).unwrap();
    }
    let curve = parse_curve(&data).unwrap();
    assert_eq!(curve.cum_vol, 1_940_000_000);
    for units in [supply / 2, supply - supply / 2] {
        let order = try_sell(&trade_accounts(&curve, vault, supply, false), units).unwrap();
        vault -= order.vault_out;
        supply -= units;
    }
    assert_eq!((vault, supply), (0, 0));
}

#[test]
fn curve_is_loaded_from_its_own_account() {
    let accounts = trade_accounts(&launched(), 0, 0, true);
    let (curve_ai, mint_ai) = (&accounts[1], &accounts[2]);
    let c = load_curve(&program(), curve_ai, mint_ai).unwrap();
    assert!(c.mint == key(5) && c.bump == 250);
    assert!(load_curve_at(&program(), curve_ai, mint_ai, &pda()).is_ok());
    assert!(custom(load_curve_at(&program(), curve_ai, mint_ai, &key(1)), E_BAD_PDA));
    assert!(custom(load_curve_at(&program(), curve_ai, curve_ai, &pda()), E_BAD_PDA));
    assert!(custom(load_curve_at(&key(1), curve_ai, mint_ai, &pda()), E_BAD_PDA));
    assert_eq!(
        load_curve_at(&mint_ai.owner, mint_ai, mint_ai, &pda()).err(),
        Some(ProgramError::BorshIoError)
    );
}
