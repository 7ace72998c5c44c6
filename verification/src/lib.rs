//! A two-party escrow over a ledger of balances.
//!
//! A maker locks an amount of one asset in a vault and names the amount of
//! another asset wanted in exchange. A taker pays that amount and receives the
//! vault's content, or the maker takes the deposit back. The vault has no
//! owner: its authority is the derived address of the escrow record, and only
//! [`make`], [`take`] and [`refund`] move what it holds.

// Some imports serve contracts and proofs only.
#![allow(unused_imports)]

pub mod address;
pub mod context;
pub mod derivation;
pub mod error;
pub mod escrow;
pub mod laws;
pub mod ledger;
pub mod state;

pub use crate::address::Address;
pub use crate::context::{Make, Refund, Take};
pub use crate::error::EscrowError;
pub use crate::escrow::{make, make_with, refund, take};
pub use crate::ledger::{Ledger, LedgerState};
pub use crate::state::{Escrow, EscrowRecord, Vault};
