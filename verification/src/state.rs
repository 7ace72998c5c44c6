//! What the ledger keeps for each open escrow.

use crate::address::Address;
use vstd::prelude::*;

verus! {

/// The terms of one trade. Written once, when the escrow is made, and never
/// changed afterwards.
#[derive(Clone, Copy, Debug, PartialEq, Eq)]
pub struct EscrowRecord {
    /// Chosen by the maker, so that one maker can run several escrows at once.
    pub seed: u64,
    /// Who may take the deposit back, and who is paid when the trade is taken.
    pub maker: Address,
    /// The asset that the vault holds.
    pub asset_a: Address,
    /// The asset that the maker wants.
    pub asset_b: Address,
    /// How much of `asset_b` a taker has to pay.
    pub receive_amount: u64,
    /// The value found at creation that puts the record's address among the
    /// valid derived addresses.
    pub derivation_adjustment: u8,
}

/// The custody account of one escrow.
#[derive(Clone, Copy, Debug, PartialEq, Eq)]
pub struct Vault {
    /// Where the vault stands.
    pub address: Address,
    /// The only authority over the vault: the address of its escrow record.
    pub authority: Address,
    /// The asset that it holds.
    pub asset: Address,
    /// How much of it.
    pub balance: u64,
}

/// An open escrow: the record and its vault, which exist together.
#[derive(Clone, Copy, Debug, PartialEq, Eq)]
pub struct Escrow {
    /// The derived address of the record.
    pub address: Address,
    pub record: EscrowRecord,
    pub vault: Vault,
}

impl Escrow {
    /// The escrow stands at `address`, its vault answers to the record's
    /// address alone and holds the asset that the maker deposited.
    pub open spec fn well_formed_at(self, address: Address) -> bool {
        &&& self.address == address
        &&& self.vault.authority == address
        &&& self.vault.asset == self.record.asset_a
    }
}

} // verus!
