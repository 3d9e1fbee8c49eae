//! Stored curves, sent instructions and SPL accounts.

use notch::bytes::{push_le, read_u32, read_u64};
use notch::error::{ProgramError, E_BAD_MINT, E_BAD_TOKEN_ACCOUNT};
use notch::key::Pubkey;
use notch::state::{
    decode_instruction, encode_instruction, parse_curve, store_curve, Curve, CurveInstruction,
    LaunchCfg, CURVE_SEED, CURVE_SIZE,
};
use notch::token::{mint_supply, parse_mint, read_key, token_account_mint, token_amount, MINT_SIZE};

fn key(n: u8) -> Pubkey {
    Pubkey { bytes: [n; 32] }
}

fn curve() -> Curve {
    Curve {
        mint: key(1),
        buy_creator: key(2),
        sell_creator: key(3),
        price_fp: 0x0102_0304_0506_0708_090a_0b0c_0d0e_0f10,
        double_vol: 25_000_000_000,
        buy_fee_creator_bps: 100,
        buy_fee_floor_bps: 200,
        sell_fee_creator_bps: 101,
        sell_fee_floor_bps: 500,
        min_backing_bps: 9_350,
        cum_vol: 77,
        bump: 254,
    }
}

fn same(a: &Curve, b: &Curve) -> bool {
    a.mint == b.mint
        && a.buy_creator == b.buy_creator
        && a.sell_creator == b.sell_creator
        && a.price_fp == b.price_fp
        && a.double_vol == b.double_vol
        && a.buy_fee_creator_bps == b.buy_fee_creator_bps
        && a.buy_fee_floor_bps == b.buy_fee_floor_bps
        && a.sell_fee_creator_bps == b.sell_fee_creator_bps
        && a.sell_fee_floor_bps == b.sell_fee_floor_bps
        && a.min_backing_bps == b.min_backing_bps
        && a.cum_vol == b.cum_vol
        && a.bump == b.bump
}

#[test]
fn curve_is_stored_field_by_field() {
    let c = curve();
    let mut data = vec![0xee; CURVE_SIZE + 3];
    assert_eq!(store_curve(&c, &mut data), Ok(()));
    let mut expect = Vec::new();
    expect.extend_from_slice(&[1; 32]);
    expect.extend_from_slice(&[2; 32]);
    expect.extend_from_slice(&[3; 32]);
    expect.extend_from_slice(&c.price_fp.to_le_bytes());
    expect.extend_from_slice(&c.double_vol.to_le_bytes());
    for rate in [100u16, 200, 101, 500, 9_350] {
        expect.extend_from_slice(&rate.to_le_bytes());
    }
    expect.extend_from_slice(&77u128.to_le_bytes());
    expect.push(254);
    assert_eq!(expect.len(), CURVE_SIZE);
    expect.extend_from_slice(&[0xee; 3]);
    assert_eq!(data, expect);
}

#[test]
fn curve_is_read_back() {
    let c = curve();
    let mut data = vec![0; CURVE_SIZE];
    assert_eq!(store_curve(&c, &mut data), Ok(()));
    assert!(same(&parse_curve(&data).unwrap(), &c));
}

#[test]
fn curve_of_another_size_is_refused() {
    assert!(parse_curve(&vec![0; CURVE_SIZE - 1]).is_none());
    assert!(parse_curve(&vec![0; CURVE_SIZE + 1]).is_none());
    assert!(parse_curve(&[]).is_none());
    assert!(parse_curve(&vec![0; CURVE_SIZE]).is_some());
}

#[test]
fn curve_needs_room() {
    let c = curve();
    let mut whole = vec![0; CURVE_SIZE];
    assert_eq!(store_curve(&c, &mut whole), Ok(()));
    for room in [0, 31, 100, CURVE_SIZE - 1] {
        let mut data = vec![0xee; room];
        assert_eq!(store_curve(&c, &mut data), Err(ProgramError::BorshIoError));
        assert_eq!(data, whole[..room].to_vec());
    }
}

#[test]
fn seed_spells_curve() {
    assert_eq!(&CURVE_SEED, b"curve");
}

#[test]
fn trades_are_sent_and_received() {
    let buy = encode_instruction(&CurveInstruction::Buy { lamports: 258, min_out: 3 });
    assert_eq!(buy, vec![1, 2, 1, 0, 0, 0, 0, 0, 0, 3, 0, 0, 0, 0, 0, 0, 0]);
    assert!(matches!(
        decode_instruction(&buy),
        Ok(CurveInstruction::Buy { lamports: 258, min_out: 3 })
    ));
    let sell = encode_instruction(&CurveInstruction::Sell { units: 9, min_out: u64::MAX });
    assert_eq!(sell, vec![2, 9, 0, 0, 0, 0, 0, 0, 0, 255, 255, 255, 255, 255, 255, 255, 255]);
    assert!(matches!(
        decode_instruction(&sell),
        Ok(CurveInstruction::Sell { units: 9, min_out: u64::MAX })
    ));
}

#[test]
fn launches_are_sent_and_received() {
    let ix = CurveInstruction::Initialize {
        buy_creator: key(4),
        sell_creator: key(5),
        start_price_fp: 1 << 100,
        double_vol: 7,
        buy_fee_creator_bps: 1,
        buy_fee_floor_bps: 2,
        sell_fee_creator_bps: 3,
        sell_fee_floor_bps: 4,
        min_backing_bps: 0x1234,
    };
    let data = encode_instruction(&ix);
    let mut expect = vec![0u8];
    expect.extend_from_slice(&[4; 32]);
    expect.extend_from_slice(&[5; 32]);
    expect.extend_from_slice(&(1u128 << 100).to_le_bytes());
    expect.extend_from_slice(&7u64.to_le_bytes());
    expect.extend_from_slice(&[1, 0, 2, 0, 3, 0, 4, 0, 0x34, 0x12]);
    assert_eq!(data, expect);
    match decode_instruction(&data) {
        Ok(CurveInstruction::Initialize {
            buy_creator,
            sell_creator,
            start_price_fp,
            double_vol,
            buy_fee_creator_bps,
            buy_fee_floor_bps,
            sell_fee_creator_bps,
            sell_fee_floor_bps,
            min_backing_bps,
        }) => {
            assert!(buy_creator == key(4) && sell_creator == key(5));
            assert_eq!((start_price_fp, double_vol), (1 << 100, 7));
            assert_eq!((buy_fee_creator_bps, buy_fee_floor_bps), (1, 2));
            assert_eq!((sell_fee_creator_bps, sell_fee_floor_bps), (3, 4));
            assert_eq!(min_backing_bps, 0x1234);
        }
        other => panic!("{other:?}"),
    }
}

#[test]
fn what_is_no_instruction_is_refused() {
    let buy = encode_instruction(&CurveInstruction::Buy { lamports: 1, min_out: 1 });
    let mut long = buy.clone();
    long.push(0);
    let mut unknown = buy.clone();
    unknown[0] = 3;
    let mut launch = buy.clone();
    launch[0] = 0;
    for data in [Vec::new(), buy[..16].to_vec(), long, unknown, launch] {
        assert_eq!(decode_instruction(&data).err(), Some(ProgramError::BorshIoError));
    }
}

#[test]
fn caps_bound_every_parameter() {
    let good = LaunchCfg {
        start_price_fp: 1_000,
        double_vol: 1_000_000_000,
        buy_fee_creator_bps: 500,
        buy_fee_floor_bps: 1_000,
        sell_fee_creator_bps: 500,
        sell_fee_floor_bps: 2_000,
        min_backing_bps: 8_250,
    };
    assert!(good.is_allowed());
    let top = LaunchCfg {
        start_price_fp: 1_000_000_000_000_000_000_000_000_000_000,
        double_vol: 10_000_000_000_000,
        min_backing_bps: 9_900,
        ..good
    };
    assert!(top.is_allowed());
    for bad in [
        LaunchCfg { start_price_fp: 999, ..good },
        LaunchCfg { start_price_fp: top.start_price_fp + 1, ..good },
        LaunchCfg { double_vol: 999_999_999, ..good },
        LaunchCfg { double_vol: 10_000_000_000_001, ..good },
        LaunchCfg { buy_fee_creator_bps: 501, ..good },
        LaunchCfg { buy_fee_floor_bps: 1_001, ..good },
        LaunchCfg { sell_fee_creator_bps: 501, ..good },
        LaunchCfg { sell_fee_floor_bps: 2_001, ..good },
        LaunchCfg { min_backing_bps: 8_249, ..good },
        LaunchCfg { min_backing_bps: 9_901, ..good },
        LaunchCfg { min_backing_bps: 0, ..good },
    ] {
        assert!(!bad.is_allowed(), "{bad:?}");
    }
}

#[test]
fn fees_take_at_most_everything() {
    let good = curve();
    assert!(good.check_fees(true) && good.check_fees(false));
    let greedy = Curve { buy_fee_floor_bps: 9_901, ..good };
    assert!(!greedy.check_fees(true) && greedy.check_fees(false));
    let greedy = Curve { sell_fee_creator_bps: 9_501, ..good };
    assert!(greedy.check_fees(true) && !greedy.check_fees(false));
}

fn mint_data() -> Vec<u8> {
    let mut data = vec![0; MINT_SIZE];
    data[0] = 1;
    data[4..36].copy_from_slice(&[6; 32]);
    data[36..44].copy_from_slice(&1_234_567_890_123u64.to_le_bytes());
    data[44] = 9;
    data[45] = 1;
    data[46] = 1;
    data[50..82].copy_from_slice(&[8; 32]);
    data
}

#[test]
fn mint_is_read() {
    let m = parse_mint(&mint_data()).unwrap();
    assert_eq!(m.authority.map(|k| k.bytes), Some([6; 32]));
    assert_eq!(m.supply, 1_234_567_890_123);
    assert_eq!(m.decimals, 9);
    assert!(m.initialized);
    assert_eq!(m.freeze_authority.map(|k| k.bytes), Some([8; 32]));
}

#[test]
fn mint_authorities_need_their_tag() {
    let mut data = mint_data();
    data[0] = 0;
    data[47] = 1;
    data[45] = 2;
    let m = parse_mint(&data).unwrap();
    assert!(m.authority.is_none());
    assert!(m.freeze_authority.is_none());
    assert!(!m.initialized);
}

#[test]
fn short_mint_is_refused() {
    let data = mint_data();
    assert_eq!(parse_mint(&data[..81]).err(), Some(ProgramError::Custom(E_BAD_MINT)));
    assert_eq!(mint_supply(&data[..43]), 0);
    assert_eq!(mint_supply(&data[..44]), 1_234_567_890_123);
}

#[test]
fn token_account_is_read() {
    let mut data = vec![0; 165];
    data[..32].copy_from_slice(&[9; 32]);
    data[64..72].copy_from_slice(&u64::MAX.to_le_bytes());
    assert!(token_account_mint(&data) == Ok(key(9)));
    assert_eq!(token_amount(&data), u64::MAX);
    assert_eq!(
        token_account_mint(&data[..71]).err(),
        Some(ProgramError::Custom(E_BAD_TOKEN_ACCOUNT))
    );
    assert_eq!(token_amount(&data[..71]), 0);
    assert_eq!(token_amount(&data[..72]), u64::MAX);
}

#[test]
fn integers_are_little_endian() {
    let data = [9, 1, 2, 3, 4, 5, 6, 7, 8, 9];
    assert_eq!(read_u64(&data, 1), 0x0807_0605_0403_0201);
    assert_eq!(read_u32(&data, 2), 0x0504_0302);
    let mut out = vec![7];
    push_le(&mut out, 0x0102_0304, 3);
    assert_eq!(out, vec![7, 4, 3, 2]);
    let keys: Vec<u8> = (0..40).collect();
    assert_eq!(read_key(&keys, 5).bytes[0], 5);
    assert_eq!(read_key(&keys, 5).bytes[31], 36);
}

#[test]
fn default_curve_is_stored_as_zeros() {
    let mut data = vec![0xee; CURVE_SIZE];
    store_curve(&Curve::default(), &mut data).unwrap();
    assert_eq!(data, vec![0; CURVE_SIZE]);
    assert_eq!(Pubkey::default().bytes, [0; 32]);
}
