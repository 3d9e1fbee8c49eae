//! Account addresses: their text form, and the addresses a program derives.

use core::str::FromStr;
use vstd::prelude::*;

verus! {

/// A 32-byte account address.
#[derive(Clone, Copy, Debug)]
pub struct Pubkey {
    pub bytes: [u8; 32],
}

impl View for Pubkey {
    type V = Seq<u8>;

    open spec fn view(&self) -> Seq<u8> {
        self.bytes@
    }
}

/// Addresses are equal when their bytes are.
impl PartialEq for Pubkey {
    fn eq(&self, other: &Self) -> (r: bool) {
        let mut i: usize = 0;
        while i < 32
            invariant
                i <= 32,
                forall|j: int| 0 <= j < i ==> self.bytes@[j] == other.bytes@[j],
            decreases 32 - i,
        {
            if self.bytes[i] != other.bytes[i] {
                return false;
            }
            i = i + 1;
        }
        assert(self@ =~= other@);
        true
    }
}

impl vstd::std_specs::cmp::PartialEqSpecImpl for Pubkey {
    open spec fn obeys_eq_spec() -> bool {
        true
    }

    open spec fn eq_spec(&self, other: &Self) -> bool {
        self@ == other@
    }
}

impl Eq for Pubkey {}

impl Default for Pubkey {
    /// The address whose bytes are all zero.
    fn default() -> (r: Pubkey)
        ensures
            r@ == Seq::new(32, |i: int| 0u8),
    {
        let r = Pubkey { bytes: [0; 32] };
        assert(r@ =~= Seq::new(32, |i: int| 0u8));
        r
    }
}

// ---------------------------------------------------------------------------
// Base 58
// ---------------------------------------------------------------------------

/// The value of a base-58 digit. The alphabet is `1-9A-HJ-NP-Za-km-z`.
pub open spec fn base58_digit(c: char) -> Option<nat> {
    if '1' <= c <= '9' {
        Some((c as int - '1' as int) as nat)
    } else if 'A' <= c <= 'H' {
        Some((9 + c as int - 'A' as int) as nat)
    } else if 'J' <= c <= 'N' {
        Some((17 + c as int - 'J' as int) as nat)
    } else if 'P' <= c <= 'Z' {
        Some((22 + c as int - 'P' as int) as nat)
    } else if 'a' <= c <= 'k' {
        Some((33 + c as int - 'a' as int) as nat)
    } else if 'm' <= c <= 'z' {
        Some((44 + c as int - 'm' as int) as nat)
    } else {
        None
    }
}

/// The number that the first `k` characters of `s` write in base 58, if they
/// all are digits.
pub open spec fn base58_value(s: Seq<char>, k: nat) -> Option<nat>
    decreases k,
{
    if k == 0 {
        Some(0)
    } else {
        match (base58_value(s, (k - 1) as nat), base58_digit(s[k - 1])) {
            (Some(high), Some(low)) => Some(58 * high + low),
            _ => None,
        }
    }
}

/// The number that the first `k` bytes of `b` write in base 256, most
/// significant byte first.
pub open spec fn be_value(b: Seq<u8>, k: nat) -> nat
    decreases k,
{
    if k == 0 {
        0
    } else {
        256 * be_value(b, (k - 1) as nat) + b[k - 1] as nat
    }
}

/// Exactly the first `n` elements of `s` equal `x`, the next, if any, does not.
pub open spec fn opens_with<T>(s: Seq<T>, x: T, n: nat) -> bool {
    &&& n <= s.len()
    &&& forall|i: int| 0 <= i < n ==> s[i] == x
    &&& n < s.len() ==> s[n as int] != x
}

/// `s` is the base-58 form of the bytes `b`: both write the same number, and
/// `s` opens with one `1` for each zero byte that `b` opens with.
pub open spec fn is_base58_of(s: Seq<char>, b: Seq<u8>) -> bool {
    &&& base58_value(s, s.len()) == Some(be_value(b, b.len()))
    &&& exists|n: nat| opens_with(s, '1', n) && opens_with(b, 0u8, n)
}

/// Sequences whose first `k` bytes write one number agree on them.
proof fn lemma_be_value_injective(a: Seq<u8>, b: Seq<u8>, k: nat)
    requires
        k <= a.len(),
        k <= b.len(),
        be_value(a, k) == be_value(b, k),
    ensures
        forall|i: int| 0 <= i < k ==> a[i] == b[i],
    decreases k,
{
    if k > 0 {
        lemma_be_value_injective(a, b, (k - 1) as nat);
    }
}

/// Why a text is not an address; opaque here.
#[verifier::external_type_specification]
#[verifier::external_body]
pub struct ExParsePubkeyError(solana_program::pubkey::ParsePubkeyError);

/// Calls `solana_program::pubkey::Pubkey::from_str`, which decodes base 58.
/// Trusted: a decoded address has `s` for its base-58 form, and decoding fails
/// only where no 32 bytes have `s` for theirs.
#[verifier::external_body]
pub(crate) fn parse_pubkey(s: &str) -> (r: Result<
    Pubkey,
    solana_program::pubkey::ParsePubkeyError,
>)
    ensures
        match r {
            Ok(k) => is_base58_of(s@, k@),
            Err(_) => forall|b: Seq<u8>| b.len() == 32 ==> !is_base58_of(s@, b),
        },
{
    let key = solana_program::pubkey::Pubkey::from_str(s)?;
    Ok(Pubkey { bytes: key.to_bytes() })
}

/// Reads an address from its base-58 form. `None` where the text is not one.
pub fn pubkey_from_text(s: &str) -> (r: Option<Pubkey>)
    ensures
        match r {
            Some(k) => is_base58_of(s@, k@),
            None => forall|b: Seq<u8>| b.len() == 32 ==> !is_base58_of(s@, b),
        },
{
    match parse_pubkey(s) {
        Ok(k) => Some(k),
        Err(_) => None,
    }
}

/// The address that `s` spells, where it is known to spell `bytes`.
pub(crate) fn known_pubkey(s: &str, bytes: &[u8; 32]) -> (r: Pubkey)
    requires
        is_base58_of(s@, bytes@),
    ensures
        r@ == bytes@,
{
    match parse_pubkey(s) {
        Ok(k) => {
            proof {
                lemma_be_value_injective(k@, bytes@, 32);
                assert(k@ =~= bytes@);
            }
            k
        },
        Err(_) => {
            assert(is_base58_of(s@, bytes@));
            Pubkey { bytes: *bytes }
        },
    }
}

// ---------------------------------------------------------------------------
// Derived addresses
// ---------------------------------------------------------------------------

/// The address and bump that the program `program_id` derives from `seeds`, or
/// `None` where no bump gives one. Stands for what
/// `solana_program::pubkey::Pubkey::try_find_program_address` returns: a search
/// over SHA-256 digests that are off the ed25519 curve.
pub uninterp spec fn program_address(seeds: Seq<Seq<u8>>, program_id: Seq<u8>) -> Option<(Seq<u8>, u8)>;

/// The contents of a list of seeds.
pub open spec fn seed_bytes(seeds: Seq<Vec<u8>>) -> Seq<Seq<u8>> {
    seeds.map_values(|s: Vec<u8>| s@)
}

/// Calls `solana_program::pubkey::Pubkey::try_find_program_address`. Trusted:
/// the result depends on the seeds and the program alone.
#[verifier::external_body]
pub(crate) fn try_find_program_address(seeds: &Vec<Vec<u8>>, program_id: &Pubkey) -> (r: Option<
    (Pubkey, u8),
>)
    ensures
        match r {
            Some((k, bump)) => program_address(seed_bytes(seeds@), program_id@) == Some((k@, bump)),
            None => program_address(seed_bytes(seeds@), program_id@) is None,
        },
{
    let slices: Vec<&[u8]> = seeds.iter().map(|s| s.as_slice()).collect();
    let id = solana_program::pubkey::Pubkey::new_from_array(program_id.bytes);
    let (key, bump) = solana_program::pubkey::Pubkey::try_find_program_address(&slices, &id)?;
    Some((Pubkey { bytes: key.to_bytes() }, bump))
}

} // verus!
