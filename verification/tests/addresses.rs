//! Addresses, their text forms and the derived ones.

use notch::address::{ata, copy_bytes, curve_pda, payout_pda, try_ata, try_curve_pda, try_payout_pda};
use notch::key::{pubkey_from_text, Pubkey};
use notch::program_ids::{
    ata_program, compute_budget_program, token_program, ATA_PROGRAM, COMPUTE_BUDGET_PROGRAM,
    SYSTEM_PROGRAM, TOKEN_PROGRAM,
};

fn key(n: u8) -> Pubkey {
    Pubkey { bytes: [n; 32] }
}

fn outside(k: &Pubkey) -> solana_program::pubkey::Pubkey {
    solana_program::pubkey::Pubkey::new_from_array(k.bytes)
}

#[test]
fn known_programs_have_their_addresses() {
    assert_eq!(token_program().bytes, TOKEN_PROGRAM);
    assert_eq!(ata_program().bytes, ATA_PROGRAM);
    assert_eq!(compute_budget_program().bytes, COMPUTE_BUDGET_PROGRAM);
    assert_eq!(solana_program::system_program::ID.to_bytes(), SYSTEM_PROGRAM);
    assert_eq!(
        outside(&token_program()).to_string(),
        "TokenkegQfeZyiNwAJbNbGKPFXCWuBvf9Ss623VQ5DA"
    );
    assert_eq!(
        outside(&ata_program()).to_string(),
        "ATokenGPvbdGVxr1b2hvZbsiqW5xWH25efTNsLJA8knL"
    );
    assert_eq!(
        outside(&compute_budget_program()).to_string(),
        "ComputeBudget111111111111111111111111111111"
    );
}

#[test]
fn text_forms_round_trip() {
    for n in [0u8, 1, 57, 58, 200, 255] {
        let k = key(n);
        let text = outside(&k).to_string();
        assert_eq!(pubkey_from_text(&text).map(|p| p.bytes), Some(k.bytes));
    }
}

#[test]
fn text_that_is_no_address_is_refused() {
    assert!(pubkey_from_text("").is_none());
    assert!(pubkey_from_text("0OIl").is_none());
    assert!(pubkey_from_text("1111111111111111111111111111111").is_none());
    assert!(pubkey_from_text("11111111111111111111111111111111").is_some());
    assert!(pubkey_from_text("111111111111111111111111111111111").is_none());
    assert!(pubkey_from_text("zzzzzzzzzzzzzzzzzzzzzzzzzzzzzzzzzzzzzzzzzzzz").is_none());
}

#[test]
fn addresses_are_equal_by_their_bytes() {
    let mut b = [7u8; 32];
    assert!(key(7) == Pubkey { bytes: b });
    b[31] = 8;
    assert!(key(7) != Pubkey { bytes: b });
}

#[test]
fn curve_address_is_the_derived_one() {
    let (program, mint) = (key(3), key(5));
    let (pda, bump) = solana_program::pubkey::Pubkey::find_program_address(
        &[b"curve", &mint.bytes],
        &outside(&program),
    );
    assert_eq!(try_curve_pda(&program, &mint).unwrap().0.bytes, pda.to_bytes());
    let (got, got_bump) = curve_pda(&program, &mint);
    assert_eq!(got.bytes, pda.to_bytes());
    assert_eq!(got_bump, bump);
    assert_ne!(got.bytes, mint.bytes);
}

#[test]
fn token_account_address_is_the_derived_one() {
    let (owner, mint) = (key(9), key(11));
    let (pda, _) = solana_program::pubkey::Pubkey::find_program_address(
        &[&owner.bytes, &TOKEN_PROGRAM, &mint.bytes],
        &outside(&ata_program()),
    );
    assert_eq!(try_ata(&owner, &mint).unwrap().bytes, pda.to_bytes());
    assert_eq!(ata(&owner, &mint).bytes, pda.to_bytes());
}

#[test]
fn payout_address_is_the_derived_one() {
    let program = key(3);
    let (pda, _) =
        solana_program::pubkey::Pubkey::find_program_address(&[b"payout"], &outside(&program));
    assert_eq!(try_payout_pda(&program).unwrap().bytes, pda.to_bytes());
    assert_eq!(payout_pda(&program).bytes, pda.to_bytes());
}

#[test]
fn bytes_are_copied() {
    assert_eq!(copy_bytes(&[1, 2, 3]), vec![1, 2, 3]);
    assert_eq!(copy_bytes(&[]), Vec::<u8>::new());
}
