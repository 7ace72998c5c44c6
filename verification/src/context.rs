//! The accounts that a caller names for each operation.
//!
//! The identity of the caller (`maker`, `taker`, `caller`) is taken as
//! established: whoever hands these values in has checked who is asking.

use crate::address::Address;
use vstd::prelude::*;

verus! {

/// The accounts of a `make`.
#[derive(Clone, Copy, Debug, PartialEq, Eq)]
pub struct Make {
    /// Who deposits.
    pub maker: Address,
    /// The asset deposited.
    pub asset_a: Address,
    /// The asset wanted in exchange.
    pub asset_b: Address,
    /// Where the escrow record is to stand.
    pub escrow: Address,
    /// Where its vault is to stand.
    pub vault: Address,
}

/// The accounts of a `take`.
#[derive(Clone, Copy, Debug, PartialEq, Eq)]
pub struct Take {
    /// Who pays and receives the deposit.
    pub taker: Address,
    /// The escrow record to settle.
    pub escrow: Address,
    /// The vault of that record.
    pub vault: Address,
}

/// The accounts of a `refund`.
#[derive(Clone, Copy, Debug, PartialEq, Eq)]
pub struct Refund {
    /// Who asks for the deposit back.
    pub caller: Address,
    /// The escrow record to cancel.
    pub escrow: Address,
    /// The vault of that record.
    pub vault: Address,
}

} // verus!
