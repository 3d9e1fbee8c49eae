//! The addresses that belong to a launch.

use crate::key::{program_address, seed_bytes, try_find_program_address, Pubkey};
use crate::program_ids::{ata_program, token_program, ATA_PROGRAM, TOKEN_PROGRAM};
use crate::state::CURVE_SEED;
use vstd::prelude::*;

verus! {

/// Seed of the payout account: the ASCII bytes of `payout`.
pub const PAYOUT_SEED: [u8; 6] = [112, 97, 121, 111, 117, 116];

/// The address and bump of a mint's curve, if there is one.
pub open spec fn curve_address(program_id: Seq<u8>, mint: Seq<u8>) -> Option<(Seq<u8>, u8)> {
    program_address(seq![CURVE_SEED@, mint], program_id)
}

/// The address of an owner's token account for a mint and its bump, if there is
/// one.
pub open spec fn ata_address(owner: Seq<u8>, mint: Seq<u8>) -> Option<(Seq<u8>, u8)> {
    program_address(seq![owner, TOKEN_PROGRAM@, mint], ATA_PROGRAM@)
}

/// The address and bump of a program's payout account, if there is one.
pub open spec fn payout_address(program_id: Seq<u8>) -> Option<(Seq<u8>, u8)> {
    program_address(seq![PAYOUT_SEED@], program_id)
}

/// A copy of some bytes.
pub fn copy_bytes(s: &[u8]) -> (r: Vec<u8>)
    ensures
        r@ == s@,
{
    let size: usize = s.len();
    let mut r: Vec<u8> = Vec::new();
    let mut i: usize = 0;
    while i < size
        invariant
            i <= size == s@.len(),
            r@ == s@.take(i as int),
        decreases size - i,
    {
        r.push(s[i]);
        i = i + 1;
        assert(r@ =~= s@.take(i as int));
    }
    assert(s@.take(size as int) =~= s@);
    r
}

/// The address and bump of a mint's curve; `None` where there is none.
fn find_curve(program_id: &Pubkey, mint: &Pubkey) -> (r: Option<(Pubkey, u8)>)
    ensures
        match r {
            Some((k, bump)) => curve_address(program_id@, mint@) == Some((k@, bump)),
            None => curve_address(program_id@, mint@) is None,
        },
{
    let seeds: Vec<Vec<u8>> = vec![copy_bytes(&CURVE_SEED), copy_bytes(&mint.bytes)];
    assert(seed_bytes(seeds@) =~= seq![CURVE_SEED@, mint@]);
    try_find_program_address(&seeds, program_id)
}

/// The address of an owner's token account; `None` where there is none.
fn find_ata(owner: &Pubkey, mint: &Pubkey) -> (r: Option<(Pubkey, u8)>)
    ensures
        match r {
            Some((k, bump)) => ata_address(owner@, mint@) == Some((k@, bump)),
            None => ata_address(owner@, mint@) is None,
        },
{
    let seeds: Vec<Vec<u8>> = vec![
        copy_bytes(&owner.bytes),
        copy_bytes(&token_program().bytes),
        copy_bytes(&mint.bytes),
    ];
    assert(seed_bytes(seeds@) =~= seq![owner@, TOKEN_PROGRAM@, mint@]);
    try_find_program_address(&seeds, &ata_program())
}

/// The address of a program's payout account; `None` where there is none.
fn find_payout(program_id: &Pubkey) -> (r: Option<(Pubkey, u8)>)
    ensures
        match r {
            Some((k, bump)) => payout_address(program_id@) == Some((k@, bump)),
            None => payout_address(program_id@) is None,
        },
{
    let seeds: Vec<Vec<u8>> = vec![copy_bytes(&PAYOUT_SEED)];
    assert(seed_bytes(seeds@) =~= seq![PAYOUT_SEED@]);
    try_find_program_address(&seeds, program_id)
}

/// The address and bump of a mint's curve.
pub fn curve_pda(program_id: &Pubkey, mint: &Pubkey) -> (r: (Pubkey, u8))
    requires
        curve_address(program_id@, mint@) is Some,
    ensures
        curve_address(program_id@, mint@) == Some((r.0@, r.1)),
{
    find_curve(program_id, mint).unwrap()
}

/// The address and bump of a mint's curve; `None` where there is none.
pub fn try_curve_pda(program_id: &Pubkey, mint: &Pubkey) -> (r: Option<(Pubkey, u8)>)
    ensures
        match r {
            Some((k, bump)) => curve_address(program_id@, mint@) == Some((k@, bump)),
            None => curve_address(program_id@, mint@) is None,
        },
{
    match find_curve(program_id, mint) {
        Some(_) => Some(curve_pda(program_id, mint)),
        None => None,
    }
}

/// The address of an owner's token account for a mint.
pub fn ata(owner: &Pubkey, mint: &Pubkey) -> (r: Pubkey)
    requires
        ata_address(owner@, mint@) is Some,
    ensures
        r@ == (ata_address(owner@, mint@)->0).0,
{
    find_ata(owner, mint).unwrap().0
}

/// The address of an owner's token account for a mint; `None` where there is
/// none.
pub fn try_ata(owner: &Pubkey, mint: &Pubkey) -> (r: Option<Pubkey>)
    ensures
        match r {
            Some(k) => ata_address(owner@, mint@) is Some && k@ == (ata_address(
                owner@,
                mint@,
            )->0).0,
            None => ata_address(owner@, mint@) is None,
        },
{
    match find_ata(owner, mint) {
        Some(_) => Some(ata(owner, mint)),
        None => None,
    }
}

/// The address of a program's payout account.
pub fn payout_pda(program_id: &Pubkey) -> (r: Pubkey)
    requires
        payout_address(program_id@) is Some,
    ensures
        r@ == (payout_address(program_id@)->0).0,
{
    find_payout(program_id).unwrap().0
}

/// The address of a program's payout account; `None` where there is none.
pub fn try_payout_pda(program_id: &Pubkey) -> (r: Option<Pubkey>)
    ensures
        match r {
            Some(k) => payout_address(program_id@) is Some && k@ == (payout_address(
                program_id@,
            )->0).0,
            None => payout_address(program_id@) is None,
        },
{
    match find_payout(program_id) {
        Some(_) => Some(payout_pda(program_id)),
        None => None,
    }
}

} // verus!
