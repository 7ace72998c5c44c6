//! Derived addresses: where an escrow record and its vault stand.
//!
//! Both addresses are computed from fixed inputs under the program's own
//! address. No key signs for a derived address, so nothing but the program's
//! rules can move what an account at such an address holds.

use crate::address::Address;
use vstd::bytes::{spec_u64_to_le_bytes, u64_to_le_bytes};
use vstd::prelude::*;

verus! {

/// The first seed of every escrow record: the bytes of `escrow`.
pub const ESCROW_TAG: [u8; 6] = [101, 115, 99, 114, 111, 119];

/// The first seed of every vault: the bytes of `vault`.
pub const VAULT_TAG: [u8; 5] = [118, 97, 117, 108, 116];

/// What `Pubkey::try_find_program_address` returns for these seeds under this
/// program: the derived address with the adjustment that was found for it, or
/// `None` where there is none.
pub uninterp spec fn found_program_address(seeds: Seq<Seq<u8>>, program: Seq<u8>) -> Option<
    (Seq<u8>, u8),
>;

/// A derivation result with the address taken by its bytes.
pub open spec fn derivation_view(found: Option<(Address, u8)>) -> Option<(Seq<u8>, u8)> {
    match found {
        Some((address, adjustment)) => Some((address@, adjustment)),
        None => None,
    }
}

/// The seeds of the escrow record that `maker` opens under `seed`.
pub open spec fn escrow_seeds(maker: Address, seed: u64) -> Seq<Seq<u8>> {
    seq![ESCROW_TAG@, maker@, spec_u64_to_le_bytes(seed)]
}

/// The seeds of the vault of the escrow record at `escrow`.
pub open spec fn vault_seeds(escrow: Address) -> Seq<Seq<u8>> {
    seq![VAULT_TAG@, escrow@]
}

/// Calls `Pubkey::try_find_program_address` of `anchor_lang` with the seeds
/// and the program address given. The contract only names the result: it is
/// the one value that the outside function computes from these arguments.
#[verifier::external_body]
fn find_program_address(seeds: &Vec<Vec<u8>>, program: &Address) -> (found: Option<(Address, u8)>)
    ensures
        derivation_view(found) == found_program_address(seeds.deep_view(), program@),
{
    let parts: Vec<&[u8]> = seeds.iter().map(|seed| seed.as_slice()).collect();
    let scope = anchor_lang::prelude::Pubkey::new_from_array(program.bytes);
    match anchor_lang::prelude::Pubkey::try_find_program_address(&parts, &scope) {
        Some((key, adjustment)) => Some((Address { bytes: key.to_bytes() }, adjustment)),
        None => None,
    }
}

fn tag_bytes<const N: usize>(tag: &[u8; N]) -> (bytes: Vec<u8>)
    ensures
        bytes@ == tag@,
{
    let mut bytes: Vec<u8> = Vec::new();
    let mut i: usize = 0;
    while i < N
        invariant
            i <= N,
            bytes@.len() == i,
            forall|j: int| 0 <= j < i ==> bytes@[j] == tag[j],
        decreases N - i,
    {
        bytes.push(tag[i]);
        i += 1;
    }
    bytes
}

/// The address at which `maker`'s escrow record for `seed` stands under
/// `program`, with its adjustment.
pub fn escrow_address(program: &Address, maker: &Address, seed: u64) -> (found: Option<
    (Address, u8),
>)
    ensures
        derivation_view(found) == found_program_address(escrow_seeds(*maker, seed), program@),
{
    let mut seeds: Vec<Vec<u8>> = Vec::new();
    seeds.push(tag_bytes(&ESCROW_TAG));
    seeds.push(maker.to_vec());
    seeds.push(u64_to_le_bytes(seed));
    assert(seeds.deep_view() =~~= escrow_seeds(*maker, seed));
    find_program_address(&seeds, program)
}

/// The address at which the vault of the escrow record at `escrow` stands
/// under `program`, with its adjustment.
pub fn vault_address(program: &Address, escrow: &Address) -> (found: Option<(Address, u8)>)
    ensures
        derivation_view(found) == found_program_address(vault_seeds(*escrow), program@),
{
    let mut seeds: Vec<Vec<u8>> = Vec::new();
    seeds.push(tag_bytes(&VAULT_TAG));
    seeds.push(escrow.to_vec());
    assert(seeds.deep_view() =~~= vault_seeds(*escrow));
    find_program_address(&seeds, program)
}

} // verus!
