//! What calls of the System and Token programs do, read from their bytes.

use crate::bytes::{le_bytes, lemma_byte_powers, lemma_le_bytes_len};
use crate::codec_laws::{bytes_at, lemma_number_within, number_at};
use crate::instruction::{
    allocate, assign, create_account, transfer, AccountMeta, Instruction, InstructionView,
};
use crate::program::Cpi;
use crate::program_ids::{SYSTEM_PROGRAM, TOKEN_PROGRAM};
use crate::token::{burn, mint_to};
use vstd::prelude::*;

verus! {

/// The address of the System program: all bytes are zero.
pub open spec fn system_key() -> Seq<u8> {
    Seq::new(32, |i: int| 0u8)
}

/// The account is named so.
pub open spec fn names(m: AccountMeta, key: Seq<u8>, is_signer: bool, is_writable: bool) -> bool {
    m.pubkey.bytes@ == key && m.is_signer == is_signer && m.is_writable == is_writable
}

/// The bytes call the System program's function `tag`.
pub open spec fn calls_system(ix: Instruction, tag: nat) -> bool {
    ix.program_id.bytes@ == system_key() && ix.data@.len() >= 4 && number_at(ix.data@, 0, 4) == tag
}

/// The call moves `lamports` from `from`, which signs, to `to`.
pub open spec fn is_transfer(ix: Instruction, from: Seq<u8>, to: Seq<u8>, lamports: int) -> bool {
    &&& calls_system(ix, 2)
    &&& ix.data@.len() == 12
    &&& number_at(ix.data@, 4, 8) == lamports
    &&& ix.accounts@.len() == 2
    &&& names(ix.accounts@[0], from, true, true)
    &&& names(ix.accounts@[1], to, false, true)
}

/// The call creates `to` with `lamports` of `from`, room for `space` bytes and
/// the owner `owner`; both sign.
pub open spec fn is_create_account(
    ix: Instruction,
    from: Seq<u8>,
    to: Seq<u8>,
    lamports: int,
    space: int,
    owner: Seq<u8>,
) -> bool {
    &&& calls_system(ix, 0)
    &&& ix.data@.len() == 52
    &&& number_at(ix.data@, 4, 8) == lamports
    &&& number_at(ix.data@, 12, 8) == space
    &&& bytes_at(ix.data@, 20, 32) == owner
    &&& ix.accounts@.len() == 2
    &&& names(ix.accounts@[0], from, true, true)
    &&& names(ix.accounts@[1], to, true, true)
}

/// The call gives `key`, which signs, room for `space` bytes.
pub open spec fn is_allocate(ix: Instruction, key: Seq<u8>, space: int) -> bool {
    &&& calls_system(ix, 8)
    &&& ix.data@.len() == 12
    &&& number_at(ix.data@, 4, 8) == space
    &&& ix.accounts@.len() == 1
    &&& names(ix.accounts@[0], key, true, true)
}

/// The call makes `owner` the owner of `key`, which signs.
pub open spec fn is_assign(ix: Instruction, key: Seq<u8>, owner: Seq<u8>) -> bool {
    &&& calls_system(ix, 1)
    &&& ix.data@.len() == 36
    &&& bytes_at(ix.data@, 4, 32) == owner
    &&& ix.accounts@.len() == 1
    &&& names(ix.accounts@[0], key, true, true)
}

/// The bytes call the Token program's function `tag` with an amount, on two
/// writable accounts and a signing authority.
pub open spec fn is_token_call(
    ix: Instruction,
    tag: u8,
    first: Seq<u8>,
    second: Seq<u8>,
    authority: Seq<u8>,
    amount: int,
) -> bool {
    &&& ix.program_id.bytes@ == TOKEN_PROGRAM@
    &&& ix.data@.len() == 9
    &&& ix.data@[0] == tag
    &&& number_at(ix.data@, 1, 8) == amount
    &&& ix.accounts@.len() == 3
    &&& names(ix.accounts@[0], first, false, true)
    &&& names(ix.accounts@[1], second, false, true)
    &&& names(ix.accounts@[2], authority, true, false)
}

/// The call mints `amount` units of `mint` to `dest`; `authority` signs.
pub open spec fn is_mint_to(
    ix: Instruction,
    mint: Seq<u8>,
    dest: Seq<u8>,
    authority: Seq<u8>,
    amount: int,
) -> bool {
    is_token_call(ix, 7, mint, dest, authority, amount)
}

/// The call burns `amount` units of `mint` held by `account`; `authority` signs.
pub open spec fn is_burn(
    ix: Instruction,
    account: Seq<u8>,
    mint: Seq<u8>,
    authority: Seq<u8>,
    amount: int,
) -> bool {
    is_token_call(ix, 8, account, mint, authority, amount)
}

// ---------------------------------------------------------------------------
// Lamports
// ---------------------------------------------------------------------------

/// The call moves lamports.
pub open spec fn moves_lamports(ix: Instruction) -> bool {
    calls_system(ix, 2) && ix.data@.len() == 12 && ix.accounts@.len() >= 2
}

/// The lamports that the calls bring to `to`.
pub open spec fn credited(calls: Seq<Cpi>, to: Seq<u8>) -> int
    decreases calls.len(),
{
    if calls.len() == 0 {
        0
    } else {
        let ix = calls.last().instruction;
        credited(calls.drop_last(), to) + if moves_lamports(ix) && ix.accounts@[1].pubkey.bytes@
            == to {
            number_at(ix.data@, 4, 8) as int
        } else {
            0
        }
    }
}

/// The lamports that the calls take from `from`.
pub open spec fn debited(calls: Seq<Cpi>, from: Seq<u8>) -> int
    decreases calls.len(),
{
    if calls.len() == 0 {
        0
    } else {
        let ix = calls.last().instruction;
        debited(calls.drop_last(), from) + if moves_lamports(ix) && ix.accounts@[0].pubkey.bytes@
            == from {
            number_at(ix.data@, 4, 8) as int
        } else {
            0
        }
    }
}

// ---------------------------------------------------------------------------
// Accounts
// ---------------------------------------------------------------------------

/// What the System program knows of an account.
pub struct Slot {
    pub lamports: int,
    pub space: int,
    pub owner: Seq<u8>,
}

/// What a call makes of the account `key`; `None` where the System program
/// refuses the call. It creates only what has no lamports, and gives room or
/// another owner only to what is its own and has no room yet.
pub open spec fn after_call(slot: Slot, key: Seq<u8>, ix: Instruction) -> Option<Slot> {
    let data = ix.data@;
    let fresh = slot.space == 0 && slot.owner == system_key();
    if calls_system(ix, 0) && ix.accounts@[1].pubkey.bytes@ == key && fresh && slot.lamports == 0 {
        Some(
            Slot {
                lamports: number_at(data, 4, 8) as int,
                space: number_at(data, 12, 8) as int,
                owner: bytes_at(data, 20, 32),
            },
        )
    } else if calls_system(ix, 2) && ix.accounts@[1].pubkey.bytes@ == key {
        Some(Slot { lamports: slot.lamports + number_at(data, 4, 8), ..slot })
    } else if calls_system(ix, 8) && ix.accounts@[0].pubkey.bytes@ == key && fresh {
        Some(Slot { space: number_at(data, 4, 8) as int, ..slot })
    } else if calls_system(ix, 1) && ix.accounts@[0].pubkey.bytes@ == key && slot.owner
        == system_key() {
        Some(Slot { owner: bytes_at(data, 4, 32), ..slot })
    } else {
        None
    }
}

/// What calls in a row make of the account `key`; `None` where one is refused.
pub open spec fn after_calls(slot: Slot, key: Seq<u8>, calls: Seq<Cpi>) -> Option<Slot>
    decreases calls.len(),
{
    if calls.len() == 0 {
        Some(slot)
    } else {
        match after_calls(slot, key, calls.drop_last()) {
            None => None,
            Some(s) => after_call(s, key, calls.last().instruction),
        }
    }
}

/// Every signature that the call asks for is there: that of `payer`, or that of
/// `key`, where the call carries it.
pub open spec fn is_authorized(cpi: Cpi, payer: Seq<u8>, key: Seq<u8>) -> bool {
    forall|i: int|
        0 <= i < cpi.instruction.accounts@.len() && (
        #[trigger] cpi.instruction.accounts@[i]).is_signer ==> {
            let who = cpi.instruction.accounts@[i].pubkey.bytes@;
            who == payer || (who == key && cpi.signed)
        }
}

// ---------------------------------------------------------------------------
// Reading
// ---------------------------------------------------------------------------

/// The accounts of a call, one by one.
pub proof fn lemma_metas(ix: Instruction, view: InstructionView)
    requires
        ix@ == view,
    ensures
        ix.program_id.bytes@ == view.program_id,
        ix.data@ == view.data,
        ix.accounts@.len() == view.accounts.len(),
        forall|i: int|
            0 <= i < view.accounts.len() ==> names(
                #[trigger] ix.accounts@[i],
                view.accounts[i].key,
                view.accounts[i].is_signer,
                view.accounts[i].is_writable,
            ),
{
    assert forall|i: int| 0 <= i < view.accounts.len() implies names(
        #[trigger] ix.accounts@[i],
        view.accounts[i].key,
        view.accounts[i].is_signer,
        view.accounts[i].is_writable,
    ) by {
        assert(ix@.accounts[i] == ix.accounts@[i]@);
    }
}

/// The number of a System function.
proof fn lemma_tag(data: Seq<u8>, tag: nat)
    requires
        tag < 256,
        data.len() >= 4,
        data.subrange(0, 4) == le_bytes(tag, 4),
    ensures
        number_at(data, 0, 4) == tag,
{
    lemma_byte_powers();
    lemma_number_within(data, 0, tag, 4);
}

/// The System program's address is zero.
pub proof fn lemma_system_key()
    ensures
        SYSTEM_PROGRAM@ == system_key(),
{
    assert(SYSTEM_PROGRAM@ =~= system_key());
}

/// A transfer moves what it says.
pub proof fn lemma_transfer_read(ix: Instruction, from: Seq<u8>, to: Seq<u8>, lamports: u64)
    requires
        ix@ == transfer(from, to, lamports),
    ensures
        is_transfer(ix, from, to, lamports as int),
{
    lemma_metas(ix, transfer(from, to, lamports));
    lemma_system_key();
    lemma_byte_powers();
    lemma_le_bytes_len(2, 4);
    lemma_le_bytes_len(lamports as nat, 8);
    let d = ix.data@;
    assert(d.subrange(0, 4) =~= le_bytes(2, 4));
    assert(d.subrange(4, 12) =~= le_bytes(lamports as nat, 8));
    lemma_tag(d, 2);
    lemma_number_within(d, 4, lamports as nat, 8);
    assert(names(ix.accounts@[0], from, true, true) && names(ix.accounts@[1], to, false, true));
}

/// A creation creates what it says.
pub proof fn lemma_create_account_read(
    ix: Instruction,
    from: Seq<u8>,
    to: Seq<u8>,
    lamports: u64,
    space: u64,
    owner: Seq<u8>,
)
    requires
        ix@ == create_account(from, to, lamports, space, owner),
        owner.len() == 32,
    ensures
        is_create_account(ix, from, to, lamports as int, space as int, owner),
{
    lemma_metas(ix, create_account(from, to, lamports, space, owner));
    lemma_system_key();
    lemma_byte_powers();
    lemma_le_bytes_len(0, 4);
    lemma_le_bytes_len(lamports as nat, 8);
    lemma_le_bytes_len(space as nat, 8);
    let d = ix.data@;
    assert(d.subrange(0, 4) =~= le_bytes(0, 4));
    assert(d.subrange(4, 12) =~= le_bytes(lamports as nat, 8));
    assert(d.subrange(12, 20) =~= le_bytes(space as nat, 8));
    assert(bytes_at(d, 20, 32) =~= owner);
    lemma_tag(d, 0);
    lemma_number_within(d, 4, lamports as nat, 8);
    lemma_number_within(d, 12, space as nat, 8);
    assert(names(ix.accounts@[0], from, true, true) && names(ix.accounts@[1], to, true, true));
}

/// An allocation gives the room that it says.
pub proof fn lemma_allocate_read(ix: Instruction, key: Seq<u8>, space: u64)
    requires
        ix@ == allocate(key, space),
    ensures
        is_allocate(ix, key, space as int),
{
    lemma_metas(ix, allocate(key, space));
    lemma_system_key();
    lemma_byte_powers();
    lemma_le_bytes_len(8, 4);
    lemma_le_bytes_len(space as nat, 8);
    let d = ix.data@;
    assert(d.subrange(0, 4) =~= le_bytes(8, 4));
    assert(d.subrange(4, 12) =~= le_bytes(space as nat, 8));
    lemma_tag(d, 8);
    lemma_number_within(d, 4, space as nat, 8);
    assert(names(ix.accounts@[0], key, true, true));
}

/// An assignment makes the owner that it says.
pub proof fn lemma_assign_read(ix: Instruction, key: Seq<u8>, owner: Seq<u8>)
    requires
        ix@ == assign(key, owner),
        owner.len() == 32,
    ensures
        is_assign(ix, key, owner),
{
    lemma_metas(ix, assign(key, owner));
    lemma_system_key();
    lemma_le_bytes_len(1, 4);
    let d = ix.data@;
    assert(d.subrange(0, 4) =~= le_bytes(1, 4));
    assert(bytes_at(d, 4, 32) =~= owner);
    lemma_tag(d, 1);
    assert(names(ix.accounts@[0], key, true, true));
}

/// The amount of a token call.
proof fn lemma_amount(d: Seq<u8>, tag: u8, amount: u64)
    requires
        d == seq![tag] + le_bytes(amount as nat, 8),
    ensures
        d.len() == 9,
        d[0] == tag,
        number_at(d, 1, 8) == amount,
{
    lemma_byte_powers();
    lemma_le_bytes_len(amount as nat, 8);
    assert(d.subrange(1, 9) =~= le_bytes(amount as nat, 8));
    lemma_number_within(d, 1, amount as nat, 8);
}

/// A minting call mints what it says.
pub proof fn lemma_mint_to_read(
    ix: Instruction,
    mint: Seq<u8>,
    dest: Seq<u8>,
    authority: Seq<u8>,
    amount: u64,
)
    requires
        ix@ == mint_to(mint, dest, authority, amount),
    ensures
        is_mint_to(ix, mint, dest, authority, amount as int),
{
    lemma_metas(ix, mint_to(mint, dest, authority, amount));
    lemma_amount(ix.data@, 7, amount);
    assert(names(ix.accounts@[0], mint, false, true) && names(ix.accounts@[1], dest, false, true)
        && names(ix.accounts@[2], authority, true, false));
}

/// A burning call burns what it says.
pub proof fn lemma_burn_read(
    ix: Instruction,
    account: Seq<u8>,
    mint: Seq<u8>,
    authority: Seq<u8>,
    amount: u64,
)
    requires
        ix@ == burn(account, mint, authority, amount),
    ensures
        is_burn(ix, account, mint, authority, amount as int),
{
    lemma_metas(ix, burn(account, mint, authority, amount));
    lemma_amount(ix.data@, 8, amount);
    assert(names(ix.accounts@[0], account, false, true) && names(
        ix.accounts@[1],
        mint,
        false,
        true,
    ) && names(ix.accounts@[2], authority, true, false));
}

} // verus!
