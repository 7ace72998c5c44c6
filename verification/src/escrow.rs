//! The three operations on an escrow: `make` opens one, `take` and `refund`
//! close it. Each either happens whole or leaves the ledger as it was.

use crate::address::Address;
use crate::context::{Make, Refund, Take};
use crate::derivation::{
    derivation_view, escrow_address, escrow_seeds, found_program_address, vault_address,
    vault_seeds,
};
use crate::error::EscrowError;
use crate::ledger::{Ledger, LedgerState};
use crate::state::{Escrow, EscrowRecord, Vault};
use vstd::prelude::*;

verus! {

/// Whether a derivation gave the address `address`.
pub open spec fn derives(found: Option<(Seq<u8>, u8)>, address: Address) -> bool {
    match found {
        Some((bytes, _)) => bytes == address@,
        None => false,
    }
}

/// The escrow that a `make` opens: the record with the terms given, and a
/// vault under the record's authority that holds the deposit.
pub open spec fn made_escrow(ctx: Make, seed: u64, receive: u64, deposit: u64, adjustment: u8) -> Escrow {
    Escrow {
        address: ctx.escrow,
        record: EscrowRecord {
            seed,
            maker: ctx.maker,
            asset_a: ctx.asset_a,
            asset_b: ctx.asset_b,
            receive_amount: receive,
            derivation_adjustment: adjustment,
        },
        vault: Vault {
            address: ctx.vault,
            authority: ctx.escrow,
            asset: ctx.asset_a,
            balance: deposit,
        },
    }
}

/// How a `make` ends, given what the derivations of the record's and of the
/// vault's address gave.
///
/// It is rejected with `InvalidDerivation` where an address given is not the
/// derived one, or an escrow is already open at the record's address; else
/// with `InsufficientFunds` where the maker holds less than the deposit.
pub open spec fn make_outcome(
    state: LedgerState,
    ctx: Make,
    deposit: u64,
    escrow_found: Option<(Seq<u8>, u8)>,
    vault_found: Option<(Seq<u8>, u8)>,
) -> Result<(), EscrowError> {
    if !derives(escrow_found, ctx.escrow) || !derives(vault_found, ctx.vault) || state.is_open(
        ctx.escrow,
    ) {
        Err(EscrowError::InvalidDerivation)
    } else if state.balance(ctx.maker, ctx.asset_a) < deposit {
        Err(EscrowError::InsufficientFunds)
    } else {
        Ok(())
    }
}

/// The ledger after a `make` that went through: the deposit has left the
/// maker and stands in the vault of the new escrow.
pub open spec fn make_effect(
    state: LedgerState,
    ctx: Make,
    seed: u64,
    receive: u64,
    deposit: u64,
    adjustment: u8,
) -> LedgerState {
    state.debited(ctx.maker, ctx.asset_a, deposit as nat).with_escrow(
        made_escrow(ctx, seed, receive, deposit, adjustment),
    )
}

/// How a `take` ends.
///
/// It is rejected with `RecordNotFound` where no escrow is open at the
/// address given; else with `VaultMismatch` where the vault given is not the
/// vault of that escrow; else with `InsufficientFunds` where the taker holds
/// less of the wanted asset than the record asks for.
pub open spec fn take_outcome(state: LedgerState, ctx: Take) -> Result<(), EscrowError> {
    if !state.is_open(ctx.escrow) {
        Err(EscrowError::RecordNotFound)
    } else if state.escrows[ctx.escrow].vault.address != ctx.vault {
        Err(EscrowError::VaultMismatch)
    } else if state.balance(ctx.taker, state.escrows[ctx.escrow].record.asset_b)
        < state.escrows[ctx.escrow].record.receive_amount {
        Err(EscrowError::InsufficientFunds)
    } else {
        Ok(())
    }
}

/// The ledger after a `take` that went through. First the taker pays the
/// maker, then the vault's whole content goes to the taker, then the escrow
/// is closed.
pub open spec fn take_effect(state: LedgerState, ctx: Take) -> LedgerState {
    let escrow = state.escrows[ctx.escrow];
    state.moved(
        ctx.taker,
        escrow.record.maker,
        escrow.record.asset_b,
        escrow.record.receive_amount as nat,
    ).credited(ctx.taker, escrow.record.asset_a, escrow.vault.balance as nat).without_escrow(
        ctx.escrow,
    )
}

/// How a `refund` ends.
///
/// It is rejected with `RecordNotFound` where no escrow is open at the
/// address given; else with `Unauthorized` where the caller is not the maker
/// of that escrow; else with `VaultMismatch` where the vault given is not its
/// vault.
pub open spec fn refund_outcome(state: LedgerState, ctx: Refund) -> Result<(), EscrowError> {
    if !state.is_open(ctx.escrow) {
        Err(EscrowError::RecordNotFound)
    } else if state.escrows[ctx.escrow].record.maker != ctx.caller {
        Err(EscrowError::Unauthorized)
    } else if state.escrows[ctx.escrow].vault.address != ctx.vault {
        Err(EscrowError::VaultMismatch)
    } else {
        Ok(())
    }
}

/// The ledger after a `refund` that went through: the vault's whole content
/// is back with the maker and the escrow is closed.
pub open spec fn refund_effect(state: LedgerState, ctx: Refund) -> LedgerState {
    let escrow = state.escrows[ctx.escrow];
    state.credited(
        escrow.record.maker,
        escrow.record.asset_a,
        escrow.vault.balance as nat,
    ).without_escrow(ctx.escrow)
}

/// Opens an escrow, given what the derivations of the record's and of the
/// vault's address gave: `make` after the derivation.
pub fn make_with(
    ledger: &mut Ledger,
    ctx: &Make,
    seed: u64,
    receive: u64,
    deposit: u64,
    escrow_found: Option<(Address, u8)>,
    vault_found: Option<(Address, u8)>,
) -> (result: Result<(), EscrowError>)
    requires
        old(ledger).wf(),
    ensures
        final(ledger).wf(),
        result == make_outcome(
            old(ledger)@,
            *ctx,
            deposit,
            derivation_view(escrow_found),
            derivation_view(vault_found),
        ),
        result is Err ==> final(ledger)@ == old(ledger)@,
        result is Ok ==> final(ledger)@ == make_effect(
            old(ledger)@,
            *ctx,
            seed,
            receive,
            deposit,
            escrow_found.unwrap().1,
        ),
        result is Ok ==> ({
            let before = old(ledger)@;
            let after = final(ledger)@;
            &&& after.is_open(ctx.escrow)
            &&& after.escrows[ctx.escrow].vault.balance == deposit
            &&& after.escrows[ctx.escrow].record.receive_amount == receive
            &&& after.balance(ctx.maker, ctx.asset_a) == before.balance(ctx.maker, ctx.asset_a)
                - deposit
        }),
        forall|asset: Address| #[trigger] final(ledger).supply(asset) == old(ledger).supply(asset),
{
    let adjustment: u8 = match escrow_found {
        Some((address, adjustment)) => {
            proof {
                address.lemma_view_injective(ctx.escrow);
            }
            if address != ctx.escrow {
                return Err(EscrowError::InvalidDerivation);
            }
            adjustment
        },
        None => {
            return Err(EscrowError::InvalidDerivation);
        },
    };
    match vault_found {
        Some((address, _)) => {
            proof {
                address.lemma_view_injective(ctx.vault);
            }
            if address != ctx.vault {
                return Err(EscrowError::InvalidDerivation);
            }
        },
        None => {
            return Err(EscrowError::InvalidDerivation);
        },
    }
    if ledger.escrow(&ctx.escrow).is_some() {
        return Err(EscrowError::InvalidDerivation);
    }
    proof {
        ledger.lemma_supply_fits(ctx.asset_a);
    }
    if !ledger.debit(&ctx.maker, &ctx.asset_a, deposit) {
        return Err(EscrowError::InsufficientFunds);
    }
    ledger.insert_escrow(
        Escrow {
            address: ctx.escrow,
            record: EscrowRecord {
                seed,
                maker: ctx.maker,
                asset_a: ctx.asset_a,
                asset_b: ctx.asset_b,
                receive_amount: receive,
                derivation_adjustment: adjustment,
            },
            vault: Vault {
                address: ctx.vault,
                authority: ctx.escrow,
                asset: ctx.asset_a,
                balance: deposit,
            },
        },
    );
    Ok(())
}

/// Opens an escrow: the maker deposits `deposit` of `asset_a` and asks for
/// `receive` of `asset_b`.
///
/// The record's address is derived from the maker and `seed`, the vault's
/// from the record's address, both under the ledger's program; the addresses
/// given must be these.
pub fn make(ledger: &mut Ledger, ctx: &Make, seed: u64, receive: u64, deposit: u64) -> (result:
    Result<(), EscrowError>)
    requires
        old(ledger).wf(),
    ensures
        final(ledger).wf(),
        result == make_outcome(
            old(ledger)@,
            *ctx,
            deposit,
            found_program_address(escrow_seeds(ctx.maker, seed), old(ledger)@.program@),
            found_program_address(vault_seeds(ctx.escrow), old(ledger)@.program@),
        ),
        result is Err ==> final(ledger)@ == old(ledger)@,
        result is Ok ==> final(ledger)@ == make_effect(
            old(ledger)@,
            *ctx,
            seed,
            receive,
            deposit,
            found_program_address(
                escrow_seeds(ctx.maker, seed),
                old(ledger)@.program@,
            ).unwrap().1,
        ),
        result is Ok ==> ({
            let before = old(ledger)@;
            let after = final(ledger)@;
            &&& after.is_open(ctx.escrow)
            &&& after.escrows[ctx.escrow].vault.balance == deposit
            &&& after.escrows[ctx.escrow].record.receive_amount == receive
            &&& after.balance(ctx.maker, ctx.asset_a) == before.balance(ctx.maker, ctx.asset_a)
                - deposit
        }),
        forall|asset: Address| #[trigger] final(ledger).supply(asset) == old(ledger).supply(asset),
{
    let program = ledger.program();
    let escrow_found = escrow_address(&program, &ctx.maker, seed);
    let vault_found = vault_address(&program, &ctx.escrow);
    make_with(ledger, ctx, seed, receive, deposit, escrow_found, vault_found)
}

/// Settles an escrow: the taker pays what the record asks for and receives
/// what the vault holds; the record and the vault are closed.
pub fn take(ledger: &mut Ledger, ctx: &Take) -> (result: Result<(), EscrowError>)
    requires
        old(ledger).wf(),
    ensures
        final(ledger).wf(),
        result == take_outcome(old(ledger)@, *ctx),
        result is Err ==> final(ledger)@ == old(ledger)@,
        result is Ok ==> final(ledger)@ == take_effect(old(ledger)@, *ctx),
        result is Ok ==> ({
            let before = old(ledger)@;
            let after = final(ledger)@;
            let escrow = before.escrows[ctx.escrow];
            &&& !after.is_open(ctx.escrow)
            &&& ctx.taker != escrow.record.maker ==> after.balance(
                escrow.record.maker,
                escrow.record.asset_b,
            ) == before.balance(escrow.record.maker, escrow.record.asset_b)
                + escrow.record.receive_amount
            &&& escrow.record.asset_a != escrow.record.asset_b ==> after.balance(
                ctx.taker,
                escrow.record.asset_a,
            ) == before.balance(ctx.taker, escrow.record.asset_a) + escrow.vault.balance
        }),
        forall|asset: Address| #[trigger] final(ledger).supply(asset) == old(ledger).supply(asset),
{
    let escrow = match ledger.escrow(&ctx.escrow) {
        Some(escrow) => escrow,
        None => {
            return Err(EscrowError::RecordNotFound);
        },
    };
    if escrow.vault.address != ctx.vault {
        return Err(EscrowError::VaultMismatch);
    }
    proof {
        ledger.lemma_wf_valid();
        ledger.lemma_supply_fits(escrow.record.asset_a);
        ledger.lemma_supply_fits(escrow.record.asset_b);
    }
    if !ledger.debit(&ctx.taker, &escrow.record.asset_b, escrow.record.receive_amount) {
        return Err(EscrowError::InsufficientFunds);
    }
    ledger.credit(&escrow.record.maker, &escrow.record.asset_b, escrow.record.receive_amount);
    let _ = ledger.remove_escrow(&ctx.escrow);
    ledger.credit(&ctx.taker, &escrow.record.asset_a, escrow.vault.balance);
    Ok(())
}

/// Cancels an escrow: the maker receives back what the vault holds; the
/// record and the vault are closed. Only the maker may do this.
pub fn refund(ledger: &mut Ledger, ctx: &Refund) -> (result: Result<(), EscrowError>)
    requires
        old(ledger).wf(),
    ensures
        final(ledger).wf(),
        result == refund_outcome(old(ledger)@, *ctx),
        result is Err ==> final(ledger)@ == old(ledger)@,
        result is Ok ==> final(ledger)@ == refund_effect(old(ledger)@, *ctx),
        result is Ok ==> ({
            let before = old(ledger)@;
            let after = final(ledger)@;
            let escrow = before.escrows[ctx.escrow];
            &&& !after.is_open(ctx.escrow)
            &&& after.balance(escrow.record.maker, escrow.record.asset_a) == before.balance(
                escrow.record.maker,
                escrow.record.asset_a,
            ) + escrow.vault.balance
        }),
        forall|asset: Address| #[trigger] final(ledger).supply(asset) == old(ledger).supply(asset),
{
    let escrow = match ledger.escrow(&ctx.escrow) {
        Some(escrow) => escrow,
        None => {
            return Err(EscrowError::RecordNotFound);
        },
    };
    if escrow.record.maker != ctx.caller {
        return Err(EscrowError::Unauthorized);
    }
    if escrow.vault.address != ctx.vault {
        return Err(EscrowError::VaultMismatch);
    }
    proof {
        ledger.lemma_wf_valid();
        ledger.lemma_supply_fits(escrow.record.asset_a);
    }
    let _ = ledger.remove_escrow(&ctx.escrow);
    ledger.credit(&escrow.record.maker, &escrow.record.asset_a, escrow.vault.balance);
    Ok(())
}

} // verus!
