//! SPL Token accounts as far as the vault reads them, and the token calls it
//! makes.

use crate::bytes::{le_bytes, le_value, push_le, read_u32, read_u64};
use crate::error::{err, ProgramError, E_BAD_MINT, E_BAD_TOKEN_ACCOUNT};
use crate::instruction::{readonly, writable, AccountMeta, Instruction, InstructionView};
use crate::key::Pubkey;
use crate::program_ids::{token_program, TOKEN_PROGRAM};
use vstd::prelude::*;

verus! {

/// Size of an SPL mint account.
pub const MINT_SIZE: usize = 82;

/// What the vault reads of an SPL mint.
#[derive(Clone, Copy, Debug)]
pub struct MintView {
    pub authority: Option<Pubkey>,
    pub supply: u64,
    pub decimals: u8,
    pub initialized: bool,
    pub freeze_authority: Option<Pubkey>,
}

/// The optional address whose tag is at `at` and whose bytes follow it: there is
/// one where the tag reads as one.
pub open spec fn optional_key(data: Seq<u8>, at: int) -> Option<Seq<u8>> {
    if le_value(data.subrange(at, at + 4)) == 1 {
        Some(data.subrange(at + 4, at + 36))
    } else {
        None
    }
}

/// The supply of the mint stored in `data`.
pub open spec fn stored_supply(data: Seq<u8>) -> nat {
    le_value(data.subrange(36, 44))
}

/// The bytes of an address that may be absent.
pub open spec fn key_bytes(k: Option<Pubkey>) -> Option<Seq<u8>> {
    match k {
        Some(k) => Some(k@),
        None => None,
    }
}

impl MintView {
    /// This is the mint that `data` stores.
    pub open spec fn reads(self, data: Seq<u8>) -> bool {
        &&& key_bytes(self.authority) == optional_key(data, 0)
        &&& self.supply == stored_supply(data)
        &&& self.decimals == data[44]
        &&& self.initialized == (data[45] == 1)
        &&& key_bytes(self.freeze_authority) == optional_key(data, 46)
    }
}

/// The address at `at`.
pub fn read_key(data: &[u8], at: usize) -> (r: Pubkey)
    requires
        at + 32 <= data@.len(),
    ensures
        r@ == data@.subrange(at as int, at + 32),
{
    let mut bytes: [u8; 32] = [0; 32];
    let size: usize = data.len();
    let mut i: usize = 0;
    while i < 32
        invariant
            i <= 32,
            at + 32 <= size == data@.len(),
            forall|j: int| 0 <= j < i ==> bytes@[j] == data@[at + j],
        decreases 32 - i,
    {
        bytes[i] = data[at + i];
        i = i + 1;
    }
    assert(bytes@ =~= data@.subrange(at as int, at + 32));
    Pubkey { bytes }
}

/// The optional address whose tag is at `at`.
fn read_optional_key(data: &[u8], at: usize) -> (r: Option<Pubkey>)
    requires
        at + 36 <= data@.len(),
    ensures
        key_bytes(r) == optional_key(data@, at as int),
{
    let size: usize = data.len();
    if read_u32(data, at) == 1 {
        Some(read_key(data, at + 4))
    } else {
        None
    }
}

/// Reads an SPL mint. Fails just where `data` is too short for one.
pub fn parse_mint(data: &[u8]) -> (r: Result<MintView, ProgramError>)
    ensures
        match r {
            Ok(m) => data@.len() >= MINT_SIZE && m.reads(data@),
            Err(e) => data@.len() < MINT_SIZE && e == ProgramError::Custom(E_BAD_MINT),
        },
{
    if data.len() < MINT_SIZE {
        return Err(err(E_BAD_MINT));
    }
    Ok(
        MintView {
            authority: read_optional_key(data, 0),
            supply: read_u64(data, 36),
            decimals: data[44],
            initialized: data[45] == 1,
            freeze_authority: read_optional_key(data, 46),
        },
    )
}

/// The mint of an SPL token account. Fails just where `data` is too short for
/// one.
pub fn token_account_mint(data: &[u8]) -> (r: Result<Pubkey, ProgramError>)
    ensures
        match r {
            Ok(k) => data@.len() >= 72 && k@ == data@.subrange(0, 32),
            Err(e) => data@.len() < 72 && e == ProgramError::Custom(E_BAD_TOKEN_ACCOUNT),
        },
{
    if data.len() < 72 {
        return Err(err(E_BAD_TOKEN_ACCOUNT));
    }
    Ok(read_key(data, 0))
}

/// The supply of an SPL mint; zero where `data` is too short to hold one.
pub fn mint_supply(data: &[u8]) -> (r: u64)
    ensures
        r == if data@.len() < 44 {
            0
        } else {
            stored_supply(data@)
        },
{
    if data.len() < 44 {
        return 0;
    }
    read_u64(data, 36)
}

/// The amount in an SPL token account; zero where `data` is too short to hold
/// one.
pub fn token_amount(data: &[u8]) -> (r: u64)
    ensures
        r == if data@.len() < 72 {
            0
        } else {
            le_value(data@.subrange(64, 72))
        },
{
    if data.len() < 72 {
        return 0;
    }
    read_u64(data, 64)
}

/// Mint `amount` units of `mint` to `dest`; `authority` signs.
pub open spec fn mint_to(
    mint: Seq<u8>,
    dest: Seq<u8>,
    authority: Seq<u8>,
    amount: u64,
) -> InstructionView {
    InstructionView {
        program_id: TOKEN_PROGRAM@,
        accounts: seq![writable(mint, false), writable(dest, false), readonly(authority, true)],
        data: seq![7u8] + le_bytes(amount as nat, 8),
    }
}

/// Burn `amount` units of `mint` held by `account`; `authority` signs.
pub open spec fn burn(
    account: Seq<u8>,
    mint: Seq<u8>,
    authority: Seq<u8>,
    amount: u64,
) -> InstructionView {
    InstructionView {
        program_id: TOKEN_PROGRAM@,
        accounts: seq![writable(account, false), writable(mint, false), readonly(authority, true)],
        data: seq![8u8] + le_bytes(amount as nat, 8),
    }
}

/// A token call on two writable accounts and a signing authority, with a tag
/// and an amount.
fn token_call(tag: u8, first: &Pubkey, second: &Pubkey, authority: &Pubkey, amount: u64) -> (r:
    Instruction)
    ensures
        r@ == (InstructionView {
            program_id: TOKEN_PROGRAM@,
            accounts: seq![writable(first@, false), writable(second@, false), readonly(authority@, true)],
            data: seq![tag] + le_bytes(amount as nat, 8),
        }),
{
    let mut data: Vec<u8> = Vec::new();
    data.push(tag);
    push_le(&mut data, amount, 8);
    let accounts: Vec<AccountMeta> = vec![
        AccountMeta::new(*first, false),
        AccountMeta::new(*second, false),
        AccountMeta::new_readonly(*authority, true),
    ];
    let r = Instruction { program_id: token_program(), accounts, data };
    assert(r@.accounts =~= seq![
        writable(first@, false),
        writable(second@, false),
        readonly(authority@, true),
    ]);
    r
}

/// The call that mints `amount` units of `mint` to `dest`.
pub fn spl_mint_to(mint: &Pubkey, dest: &Pubkey, authority: &Pubkey, amount: u64) -> (r: Instruction)
    ensures
        r@ == mint_to(mint@, dest@, authority@, amount),
{
    token_call(7, mint, dest, authority, amount)
}

/// The call that burns `amount` units of `mint` held by `account`.
pub fn spl_burn(account: &Pubkey, mint: &Pubkey, authority: &Pubkey, amount: u64) -> (r: Instruction)
    ensures
        r@ == burn(account@, mint@, authority@, amount),
{
    token_call(8, account, mint, authority, amount)
}

} // verus!
