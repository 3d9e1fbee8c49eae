//! Built instructions.

use notch::address::{ata, curve_pda, payout_pda};
use notch::client::{
    buy, buy_at, confirm_launch, create_ata_ix, create_ata_ix_at, create_mint_ixs,
    create_mint_ixs_at, cu_limit, initialize, initialize_at, launch_ixs, launch_ixs_at, sell,
    sell_at, sell_via_payout, sell_via_payout_at, try_buy, try_create_ata_ix, try_create_mint_ixs,
    try_initialize, try_launch_ixs, try_sell, try_sell_via_payout,
};
use notch::instruction::Instruction;
use notch::key::Pubkey;
use notch::program_ids::{ATA_PROGRAM, COMPUTE_BUDGET_PROGRAM, SYSTEM_PROGRAM, TOKEN_PROGRAM};
use notch::schedule::reference_cfg;
use notch::state::{encode_instruction, store_curve, Curve, CurveInstruction, CURVE_SIZE};

fn key(n: u8) -> Pubkey {
    Pubkey { bytes: [n; 32] }
}

fn metas(ix: &Instruction) -> Vec<([u8; 32], bool, bool)> {
    ix.accounts.iter().map(|m| (m.pubkey.bytes, m.is_signer, m.is_writable)).collect()
}

fn same(a: &Instruction, b: &Instruction) -> bool {
    a.program_id == b.program_id && metas(a) == metas(b) && a.data == b.data
}

#[test]
fn launch_names_payer_curve_mint_and_system() {
    let cfg = reference_cfg();
    let ix = initialize_at(&key(1), &key(2), &key(3), &key(4), &key(5), &cfg, &key(6));
    assert_eq!(ix.program_id.bytes, [1; 32]);
    assert_eq!(
        metas(&ix),
        vec![
            ([2; 32], true, true),
            ([6; 32], false, true),
            ([5; 32], false, false),
            (SYSTEM_PROGRAM, false, false),
        ]
    );
    let sent = encode_instruction(&CurveInstruction::Initialize {
        buy_creator: key(3),
        sell_creator: key(4),
        start_price_fp: cfg.start_price_fp,
        double_vol: cfg.double_vol,
        buy_fee_creator_bps: 100,
        buy_fee_floor_bps: 200,
        sell_fee_creator_bps: 100,
        sell_fee_floor_bps: 500,
        min_backing_bps: 9_350,
    });
    assert_eq!(ix.data, sent);
    let (pda, _) = curve_pda(&key(1), &key(5));
    let at = initialize_at(&key(1), &key(2), &key(3), &key(4), &key(5), &cfg, &pda);
    let ix = initialize(&key(1), &key(2), &key(3), &key(4), &key(5), &cfg);
    assert!(same(&ix, &at));
    let ix = try_initialize(&key(1), &key(2), &key(3), &key(4), &key(5), &cfg).unwrap();
    assert!(same(&ix, &at));
}

#[test]
fn buy_names_its_accounts() {
    let ix = buy_at(&key(1), &key(2), &key(3), &key(4), 9, 8, &key(5), &key(6));
    assert_eq!(
        metas(&ix),
        vec![
            ([2; 32], true, true),
            ([5; 32], false, true),
            ([3; 32], false, true),
            ([6; 32], false, true),
            ([4; 32], false, true),
            (TOKEN_PROGRAM, false, false),
            (SYSTEM_PROGRAM, false, false),
        ]
    );
    assert_eq!(ix.data, encode_instruction(&CurveInstruction::Buy { lamports: 9, min_out: 8 }));
    let (pda, account) = (curve_pda(&key(1), &key(3)).0, ata(&key(2), &key(3)));
    let at = buy_at(&key(1), &key(2), &key(3), &key(4), 9, 8, &pda, &account);
    assert!(same(&buy(&key(1), &key(2), &key(3), &key(4), 9, 8), &at));
    assert!(same(&try_buy(&key(1), &key(2), &key(3), &key(4), 9, 8).unwrap(), &at));
}

#[test]
fn sell_names_its_accounts() {
    let ix = sell_at(&key(1), &key(2), &key(3), &key(4), 9, 8, &key(5), &key(6));
    assert_eq!(
        metas(&ix),
        vec![
            ([2; 32], true, true),
            ([5; 32], false, true),
            ([3; 32], false, true),
            ([6; 32], false, true),
            ([4; 32], false, true),
            (TOKEN_PROGRAM, false, false),
        ]
    );
    assert_eq!(ix.data, encode_instruction(&CurveInstruction::Sell { units: 9, min_out: 8 }));
    let (pda, account) = (curve_pda(&key(1), &key(3)).0, ata(&key(2), &key(3)));
    let at = sell_at(&key(1), &key(2), &key(3), &key(4), 9, 8, &pda, &account);
    assert!(same(&sell(&key(1), &key(2), &key(3), &key(4), 9, 8), &at));
    assert!(same(&try_sell(&key(1), &key(2), &key(3), &key(4), 9, 8).unwrap(), &at));
}

#[test]
fn sell_via_payout_appends_payout_and_system() {
    let ix = sell_via_payout_at(
        &key(1), &key(2), &key(3), &key(4), 9, 8, &key(5), &key(6), &key(7),
    );
    let plain = sell_at(&key(1), &key(2), &key(3), &key(4), 9, 8, &key(5), &key(6));
    let mut expect = metas(&plain);
    expect.push(([7; 32], false, true));
    expect.push((SYSTEM_PROGRAM, false, false));
    assert_eq!(metas(&ix), expect);
    assert_eq!(ix.data, plain.data);
    let (pda, account) = (curve_pda(&key(1), &key(3)).0, ata(&key(2), &key(3)));
    let payout = payout_pda(&key(1));
    let at = sell_via_payout_at(
        &key(1), &key(2), &key(3), &key(4), 9, 8, &pda, &account, &payout,
    );
    assert!(same(&sell_via_payout(&key(1), &key(2), &key(3), &key(4), 9, 8), &at));
    assert!(same(
        &try_sell_via_payout(&key(1), &key(2), &key(3), &key(4), 9, 8).unwrap(),
        &at
    ));
}

#[test]
fn mint_is_created_under_the_curve() {
    let ixs = create_mint_ixs_at(&key(2), &key(3), 1_461_600, &key(6));
    assert_eq!(ixs.len(), 2);
    let outside = solana_program::system_instruction::create_account(
        &[2; 32].into(),
        &[3; 32].into(),
        1_461_600,
        82,
        &TOKEN_PROGRAM.into(),
    );
    assert_eq!(ixs[0].program_id.bytes, SYSTEM_PROGRAM);
    assert_eq!(ixs[0].data, outside.data);
    let mut data = vec![0u8; 4];
    data.extend_from_slice(&1_461_600u64.to_le_bytes());
    data.extend_from_slice(&82u64.to_le_bytes());
    data.extend_from_slice(&TOKEN_PROGRAM);
    assert_eq!(ixs[0].data, data);
    assert_eq!(metas(&ixs[0]), vec![([2; 32], true, true), ([3; 32], true, true)]);
    assert_eq!(ixs[1].program_id.bytes, TOKEN_PROGRAM);
    assert_eq!(metas(&ixs[1]), vec![([3; 32], false, true)]);
    let mut data = vec![20, 9];
    data.extend_from_slice(&[6; 32]);
    data.push(0);
    assert_eq!(ixs[1].data, data);
    let (pda, _) = curve_pda(&key(1), &key(3));
    let at = create_mint_ixs_at(&key(2), &key(3), 5, &pda);
    for got in [
        create_mint_ixs(&key(1), &key(2), &key(3), 5),
        try_create_mint_ixs(&key(1), &key(2), &key(3), 5).unwrap(),
    ] {
        assert_eq!(got.len(), 2);
        assert!(same(&got[0], &at[0]) && same(&got[1], &at[1]));
    }
}

#[test]
fn token_account_is_created_once() {
    let ix = create_ata_ix_at(&key(2), &key(3), &key(4), &key(5));
    assert_eq!(ix.program_id.bytes, ATA_PROGRAM);
    assert_eq!(
        metas(&ix),
        vec![
            ([2; 32], true, true),
            ([5; 32], false, true),
            ([3; 32], false, false),
            ([4; 32], false, false),
            (SYSTEM_PROGRAM, false, false),
            (TOKEN_PROGRAM, false, false),
        ]
    );
    assert_eq!(ix.data, vec![1]);
    let at = create_ata_ix_at(&key(2), &key(3), &key(4), &ata(&key(3), &key(4)));
    assert!(same(&create_ata_ix(&key(2), &key(3), &key(4)), &at));
    assert!(same(&try_create_ata_ix(&key(2), &key(3), &key(4)).unwrap(), &at));
}

#[test]
fn compute_is_asked_for() {
    let ix = cu_limit(600_000);
    assert_eq!(ix.program_id.bytes, COMPUTE_BUDGET_PROGRAM);
    assert!(ix.accounts.is_empty());
    assert_eq!(ix.data, vec![2, 0xc0, 0x27, 0x09, 0]);
}

#[test]
fn launch_creates_the_mint_before_the_curve() {
    let cfg = reference_cfg();
    let ixs = launch_ixs_at(&key(1), &key(2), &key(3), &key(4), &key(5), 7, &cfg, &key(6));
    assert_eq!(ixs.len(), 3);
    let mint = create_mint_ixs_at(&key(2), &key(5), 7, &key(6));
    assert!(same(&ixs[0], &mint[0]) && same(&ixs[1], &mint[1]));
    let open = initialize_at(&key(1), &key(2), &key(3), &key(4), &key(5), &cfg, &key(6));
    assert!(same(&ixs[2], &open));
    let (pda, _) = curve_pda(&key(1), &key(5));
    let at = launch_ixs_at(&key(1), &key(2), &key(3), &key(4), &key(5), 7, &cfg, &pda);
    for got in [
        launch_ixs(&key(1), &key(2), &key(3), &key(4), &key(5), 7, &cfg),
        try_launch_ixs(&key(1), &key(2), &key(3), &key(4), &key(5), 7, &cfg).unwrap(),
    ] {
        assert_eq!(got.len(), 3);
        assert!(got.iter().zip(at.iter()).all(|(a, b)| same(a, b)));
    }
}

#[test]
fn launch_is_confirmed_by_mint_and_creators() {
    let mut data = vec![0; CURVE_SIZE];
    let curve = Curve {
        mint: key(1),
        buy_creator: key(2),
        sell_creator: key(3),
        price_fp: 5,
        ..Curve::default()
    };
    store_curve(&curve, &mut data).unwrap();
    assert_eq!(confirm_launch(&data, &key(1), &key(2), &key(3)).map(|c| c.price_fp), Some(5));
    assert!(confirm_launch(&data, &key(9), &key(2), &key(3)).is_none());
    assert!(confirm_launch(&data, &key(1), &key(9), &key(3)).is_none());
    assert!(confirm_launch(&data, &key(1), &key(2), &key(9)).is_none());
    assert!(confirm_launch(&data[1..], &key(1), &key(2), &key(3)).is_none());
}
