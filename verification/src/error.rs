//! Why an escrow operation was rejected.

use vstd::prelude::*;

verus! {

/// The reason an operation was rejected. A rejected operation changes nothing.
#[derive(Clone, Copy, Debug, PartialEq, Eq, Structural)]
pub enum EscrowError {
    /// The payer holds less than the amount to move.
    InsufficientFunds,
    /// The caller is not the maker of the escrow.
    Unauthorized,
    /// No open escrow record stands at the address given.
    RecordNotFound,
    /// The vault given is not the vault of the escrow record given.
    VaultMismatch,
    /// The addresses given are not the ones derived for the maker and seed,
    /// or the derived record address is already in use.
    InvalidDerivation,
}

} // verus!
