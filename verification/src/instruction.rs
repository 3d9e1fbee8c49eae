//! Instructions to on-chain programs, and those of the System program.

use crate::bytes::le_bytes;
use crate::key::Pubkey;
use crate::program_ids::SYSTEM_PROGRAM;
use vstd::prelude::*;

verus! {

/// An account that an instruction names, and what it may do with it.
#[derive(Clone, Copy, Debug)]
pub struct AccountMeta {
    pub pubkey: Pubkey,
    pub is_signer: bool,
    pub is_writable: bool,
}

/// A call of an on-chain program.
#[derive(Debug)]
pub struct Instruction {
    pub program_id: Pubkey,
    pub accounts: Vec<AccountMeta>,
    pub data: Vec<u8>,
}

/// An account that an instruction names, by its bytes.
#[verifier::ext_equal]
pub struct MetaView {
    pub key: Seq<u8>,
    pub is_signer: bool,
    pub is_writable: bool,
}

/// A call of an on-chain program, by its bytes.
#[verifier::ext_equal]
pub struct InstructionView {
    pub program_id: Seq<u8>,
    pub accounts: Seq<MetaView>,
    pub data: Seq<u8>,
}

/// An account that the instruction may write.
pub open spec fn writable(key: Seq<u8>, is_signer: bool) -> MetaView {
    MetaView { key, is_signer, is_writable: true }
}

/// An account that the instruction only reads.
pub open spec fn readonly(key: Seq<u8>, is_signer: bool) -> MetaView {
    MetaView { key, is_signer, is_writable: false }
}

impl View for AccountMeta {
    type V = MetaView;

    open spec fn view(&self) -> MetaView {
        MetaView { key: self.pubkey@, is_signer: self.is_signer, is_writable: self.is_writable }
    }
}

impl View for Instruction {
    type V = InstructionView;

    open spec fn view(&self) -> InstructionView {
        InstructionView {
            program_id: self.program_id@,
            accounts: self.accounts@.map_values(|m: AccountMeta| m@),
            data: self.data@,
        }
    }
}

impl AccountMeta {
    /// An account that the instruction may write.
    pub fn new(pubkey: Pubkey, is_signer: bool) -> (r: AccountMeta)
        ensures
            r@ == writable(pubkey@, is_signer),
    {
        AccountMeta { pubkey, is_signer, is_writable: true }
    }

    /// An account that the instruction only reads.
    pub fn new_readonly(pubkey: Pubkey, is_signer: bool) -> (r: AccountMeta)
        ensures
            r@ == readonly(pubkey@, is_signer),
    {
        AccountMeta { pubkey, is_signer, is_writable: false }
    }
}

// ---------------------------------------------------------------------------
// The System program
// ---------------------------------------------------------------------------

/// Create the account `to` with `lamports` from `from`, room for `space` bytes
/// and the owner `owner`. Both accounts sign.
pub open spec fn create_account(
    from: Seq<u8>,
    to: Seq<u8>,
    lamports: u64,
    space: u64,
    owner: Seq<u8>,
) -> InstructionView {
    InstructionView {
        program_id: SYSTEM_PROGRAM@,
        accounts: seq![writable(from, true), writable(to, true)],
        data: le_bytes(0, 4) + le_bytes(lamports as nat, 8) + le_bytes(space as nat, 8) + owner,
    }
}

/// Make `owner` the owner of `key`, which signs.
pub open spec fn assign(key: Seq<u8>, owner: Seq<u8>) -> InstructionView {
    InstructionView {
        program_id: SYSTEM_PROGRAM@,
        accounts: seq![writable(key, true)],
        data: le_bytes(1, 4) + owner,
    }
}

/// Move `lamports` from `from`, which signs, to `to`.
pub open spec fn transfer(from: Seq<u8>, to: Seq<u8>, lamports: u64) -> InstructionView {
    InstructionView {
        program_id: SYSTEM_PROGRAM@,
        accounts: seq![writable(from, true), writable(to, false)],
        data: le_bytes(2, 4) + le_bytes(lamports as nat, 8),
    }
}

/// Give `key`, which signs, room for `space` bytes.
pub open spec fn allocate(key: Seq<u8>, space: u64) -> InstructionView {
    InstructionView {
        program_id: SYSTEM_PROGRAM@,
        accounts: seq![writable(key, true)],
        data: le_bytes(8, 4) + le_bytes(space as nat, 8),
    }
}

/// Calls `solana_program::system_instruction::create_account`. Trusted: it
/// builds the call described by `create_account`.
#[verifier::external_body]
pub(crate) fn system_create_account(
    from: &Pubkey,
    to: &Pubkey,
    lamports: u64,
    space: u64,
    owner: &Pubkey,
) -> (r: Instruction)
    ensures
        r@ == create_account(from@, to@, lamports, space, owner@),
{
    let (f, t, o) = (from.bytes.into(), to.bytes.into(), owner.bytes.into());
    let ix = solana_program::system_instruction::create_account(&f, &t, lamports, space, &o);
    let program_id = Pubkey { bytes: ix.program_id.to_bytes() };
    let accounts = ix.accounts.iter().map(
        |m| AccountMeta {
            pubkey: Pubkey { bytes: m.pubkey.to_bytes() },
            is_signer: m.is_signer,
            is_writable: m.is_writable,
        },
    ).collect();
    Instruction { program_id, accounts, data: ix.data }
}

/// Calls `solana_program::system_instruction::assign`. Trusted: it builds the
/// call described by `assign`.
#[verifier::external_body]
pub(crate) fn system_assign(key: &Pubkey, owner: &Pubkey) -> (r: Instruction)
    ensures
        r@ == assign(key@, owner@),
{
    let ix = solana_program::system_instruction::assign(&key.bytes.into(), &owner.bytes.into());
    let program_id = Pubkey { bytes: ix.program_id.to_bytes() };
    let accounts = ix.accounts.iter().map(
        |m| AccountMeta {
            pubkey: Pubkey { bytes: m.pubkey.to_bytes() },
            is_signer: m.is_signer,
            is_writable: m.is_writable,
        },
    ).collect();
    Instruction { program_id, accounts, data: ix.data }
}

/// Calls `solana_program::system_instruction::transfer`. Trusted: it builds the
/// call described by `transfer`.
#[verifier::external_body]
pub(crate) fn system_transfer(from: &Pubkey, to: &Pubkey, lamports: u64) -> (r: Instruction)
    ensures
        r@ == transfer(from@, to@, lamports),
{
    let (f, t) = (from.bytes.into(), to.bytes.into());
    let ix = solana_program::system_instruction::transfer(&f, &t, lamports);
    let program_id = Pubkey { bytes: ix.program_id.to_bytes() };
    let accounts = ix.accounts.iter().map(
        |m| AccountMeta {
            pubkey: Pubkey { bytes: m.pubkey.to_bytes() },
            is_signer: m.is_signer,
            is_writable: m.is_writable,
        },
    ).collect();
    Instruction { program_id, accounts, data: ix.data }
}

/// Calls `solana_program::system_instruction::allocate`. Trusted: it builds the
/// call described by `allocate`.
#[verifier::external_body]
pub(crate) fn system_allocate(key: &Pubkey, space: u64) -> (r: Instruction)
    ensures
        r@ == allocate(key@, space),
{
    let ix = solana_program::system_instruction::allocate(&key.bytes.into(), space);
    let program_id = Pubkey { bytes: ix.program_id.to_bytes() };
    let accounts = ix.accounts.iter().map(
        |m| AccountMeta {
            pubkey: Pubkey { bytes: m.pubkey.to_bytes() },
            is_signer: m.is_signer,
            is_writable: m.is_writable,
        },
    ).collect();
    Instruction { program_id, accounts, data: ix.data }
}

} // verus!
