//! What holds of the escrow operations, whatever the ledger and the caller.
//!
//! Each statement is about the outcome and the effect of an operation as the
//! operation's own contract gives them, so it holds of every call.

use crate::address::Address;
use crate::context::{Make, Refund, Take};
use crate::derivation::{escrow_seeds, found_program_address};
use crate::error::EscrowError;
use crate::escrow::{
    derives, make_effect, make_outcome, refund_effect, refund_outcome, take_effect,
    take_outcome,
};
use crate::ledger::LedgerState;
use vstd::prelude::*;

verus! {

/// After a `make` that went through, the escrow is open, its vault holds
/// exactly the deposit, its record asks for exactly the amount named, and the
/// maker holds exactly the deposit less of the deposited asset.
pub proof fn law_make_locks_the_deposit(
    state: LedgerState,
    ctx: Make,
    seed: u64,
    receive: u64,
    deposit: u64,
    escrow_found: Option<(Seq<u8>, u8)>,
    vault_found: Option<(Seq<u8>, u8)>,
)
    requires
        make_outcome(state, ctx, deposit, escrow_found, vault_found) is Ok,
    ensures
        ({
            let after = make_effect(state, ctx, seed, receive, deposit, escrow_found.unwrap().1);
            &&& after.is_open(ctx.escrow)
            &&& after.escrows[ctx.escrow].vault.balance == deposit
            &&& after.escrows[ctx.escrow].record.receive_amount == receive
            &&& after.balance(ctx.maker, ctx.asset_a) == state.balance(ctx.maker, ctx.asset_a)
                - deposit
        }),
{
}

/// A `make` that went through changes no balance but the maker's of the
/// deposited asset, and no escrow but the one it opens.
pub proof fn law_make_touches_nothing_else(
    state: LedgerState,
    ctx: Make,
    seed: u64,
    receive: u64,
    deposit: u64,
    adjustment: u8,
    owner: Address,
    asset: Address,
    other: Address,
)
    ensures
        ({
            let after = make_effect(state, ctx, seed, receive, deposit, adjustment);
            &&& !(owner == ctx.maker && asset == ctx.asset_a) ==> after.balance(owner, asset)
                == state.balance(owner, asset)
            &&& other != ctx.escrow ==> after.is_open(other) == state.is_open(other)
                && after.escrows[other] == state.escrows[other]
        }),
{
}

/// After a `take` that went through, the escrow is closed.
pub proof fn law_take_closes(state: LedgerState, ctx: Take)
    requires
        take_outcome(state, ctx) is Ok,
    ensures
        !take_effect(state, ctx).is_open(ctx.escrow),
{
}

/// After a `take` that went through, the maker holds exactly the amount
/// asked for more of the wanted asset.
///
/// This is so when the taker is someone else. A maker who takes the own
/// escrow pays the own account, and then it is so only if the amount asked
/// for equals what comes back from the vault in that same asset.
pub proof fn law_take_pays_the_maker(state: LedgerState, ctx: Take)
    requires
        take_outcome(state, ctx) is Ok,
        ctx.taker != state.escrows[ctx.escrow].record.maker
            || state.escrows[ctx.escrow].record.receive_amount == (if state.escrows[ctx.escrow].record.asset_a
            == state.escrows[ctx.escrow].record.asset_b {
            state.escrows[ctx.escrow].vault.balance
        } else {
            0
        }),
    ensures
        ({
            let record = state.escrows[ctx.escrow].record;
            take_effect(state, ctx).balance(record.maker, record.asset_b) == state.balance(
                record.maker,
                record.asset_b,
            ) + record.receive_amount
        }),
{
}

/// After a `take` that went through, the taker holds exactly what the vault
/// held more of the deposited asset.
///
/// This is so when the two assets differ. When the escrow trades an asset
/// for itself, the taker's payment comes out of the same balance, and then it
/// is so only if nothing was asked for or the taker is the maker.
pub proof fn law_take_releases_the_vault(state: LedgerState, ctx: Take)
    requires
        take_outcome(state, ctx) is Ok,
        state.escrows[ctx.escrow].record.asset_a != state.escrows[ctx.escrow].record.asset_b
            || state.escrows[ctx.escrow].record.receive_amount == 0 || ctx.taker
            == state.escrows[ctx.escrow].record.maker,
    ensures
        ({
            let escrow = state.escrows[ctx.escrow];
            take_effect(state, ctx).balance(ctx.taker, escrow.record.asset_a) == state.balance(
                ctx.taker,
                escrow.record.asset_a,
            ) + escrow.vault.balance
        }),
{
}

/// A `take` that went through changes no balance but the taker's and the
/// maker's of the two assets of the escrow, and no other escrow.
pub proof fn law_take_touches_nothing_else(
    state: LedgerState,
    ctx: Take,
    owner: Address,
    asset: Address,
    other: Address,
)
    ensures
        ({
            let record = state.escrows[ctx.escrow].record;
            let after = take_effect(state, ctx);
            &&& !(owner == ctx.taker && asset == record.asset_b) && !(owner == record.maker
                && asset == record.asset_b) && !(owner == ctx.taker && asset == record.asset_a)
                ==> after.balance(owner, asset) == state.balance(owner, asset)
            &&& other != ctx.escrow ==> after.is_open(other) == state.is_open(other)
                && after.escrows[other] == state.escrows[other]
        }),
{
}

/// While the taker holds less of the wanted asset than the record asks
/// for, a `take` of an open escrow with its own vault is rejected for
/// insufficient funds.
pub proof fn law_take_needs_the_payment(state: LedgerState, ctx: Take)
    requires
        state.is_open(ctx.escrow),
        state.escrows[ctx.escrow].vault.address == ctx.vault,
        state.balance(ctx.taker, state.escrows[ctx.escrow].record.asset_b)
            < state.escrows[ctx.escrow].record.receive_amount,
    ensures
        take_outcome(state, ctx) == Err::<(), EscrowError>(EscrowError::InsufficientFunds),
{
}

/// After a `refund` that went through, the escrow is closed and the maker
/// holds exactly what the vault held more of the deposited asset.
pub proof fn law_refund_returns_the_deposit(state: LedgerState, ctx: Refund)
    requires
        refund_outcome(state, ctx) is Ok,
    ensures
        ({
            let escrow = state.escrows[ctx.escrow];
            let after = refund_effect(state, ctx);
            &&& !after.is_open(ctx.escrow)
            &&& after.balance(escrow.record.maker, escrow.record.asset_a) == state.balance(
                escrow.record.maker,
                escrow.record.asset_a,
            ) + escrow.vault.balance
        }),
{
}

/// A `refund` that went through changes no balance but the maker's of the
/// deposited asset, and no other escrow.
pub proof fn law_refund_touches_nothing_else(
    state: LedgerState,
    ctx: Refund,
    owner: Address,
    asset: Address,
    other: Address,
)
    ensures
        ({
            let record = state.escrows[ctx.escrow].record;
            let after = refund_effect(state, ctx);
            &&& !(owner == record.maker && asset == record.asset_a) ==> after.balance(owner, asset)
                == state.balance(owner, asset)
            &&& other != ctx.escrow ==> after.is_open(other) == state.is_open(other)
                && after.escrows[other] == state.escrows[other]
        }),
{
}

/// A `refund` by the maker right after the `make` goes through and gives
/// back the ledger as it was before the `make`: the maker's balance of the
/// deposited asset is what it was, and so is everything else.
pub proof fn law_refund_undoes_make(
    state: LedgerState,
    ctx: Make,
    seed: u64,
    receive: u64,
    deposit: u64,
    escrow_found: Option<(Seq<u8>, u8)>,
    vault_found: Option<(Seq<u8>, u8)>,
)
    requires
        state.valid(),
        make_outcome(state, ctx, deposit, escrow_found, vault_found) is Ok,
    ensures
        ({
            let made = make_effect(state, ctx, seed, receive, deposit, escrow_found.unwrap().1);
            let back = Refund { caller: ctx.maker, escrow: ctx.escrow, vault: ctx.vault };
            &&& refund_outcome(made, back) is Ok
            &&& refund_effect(made, back) == state
        }),
{
    let made = make_effect(state, ctx, seed, receive, deposit, escrow_found.unwrap().1);
    let back = Refund { caller: ctx.maker, escrow: ctx.escrow, vault: ctx.vault };
    assert(refund_effect(made, back).balances =~= state.balances);
    assert(refund_effect(made, back).escrows =~= state.escrows);
}

/// A `refund` of an open escrow by anyone but its maker is rejected as
/// unauthorized, whatever vault is named.
pub proof fn law_refund_is_for_the_maker(state: LedgerState, ctx: Refund)
    requires
        state.is_open(ctx.escrow),
        ctx.caller != state.escrows[ctx.escrow].record.maker,
    ensures
        refund_outcome(state, ctx) == Err::<(), EscrowError>(EscrowError::Unauthorized),
{
}

/// A maker and a seed have one escrow address under a program: whoever
/// names the escrow of that maker and seed names that address.
pub proof fn law_one_address_for_maker_and_seed(
    program: Address,
    maker: Address,
    seed: u64,
    one: Address,
    other: Address,
)
    ensures
        derives(found_program_address(escrow_seeds(maker, seed), program@), one) && derives(
            found_program_address(escrow_seeds(maker, seed), program@),
            other,
        ) ==> one == other,
{
    one.lemma_view_injective(other);
}

/// Where no escrow is open at an address, every `take` and every `refund`
/// that names it is rejected for want of the record.
pub proof fn law_closed_is_not_found(state: LedgerState, take: Take, refund: Refund)
    requires
        !state.is_open(take.escrow),
        !state.is_open(refund.escrow),
    ensures
        take_outcome(state, take) == Err::<(), EscrowError>(EscrowError::RecordNotFound),
        refund_outcome(state, refund) == Err::<(), EscrowError>(EscrowError::RecordNotFound),
{
}

/// Once a `take` went through, every further `take` and `refund` of the same
/// escrow is rejected for want of the record: nothing is paid out twice.
pub proof fn law_taken_is_terminal(state: LedgerState, ctx: Take, again: Take, back: Refund)
    requires
        take_outcome(state, ctx) is Ok,
        again.escrow == ctx.escrow,
        back.escrow == ctx.escrow,
    ensures
        take_outcome(take_effect(state, ctx), again) == Err::<(), EscrowError>(
            EscrowError::RecordNotFound,
        ),
        refund_outcome(take_effect(state, ctx), back) == Err::<(), EscrowError>(
            EscrowError::RecordNotFound,
        ),
{
}

/// Once a `refund` went through, every further `take` and `refund` of the
/// same escrow is rejected for want of the record: nothing is paid out twice.
pub proof fn law_refunded_is_terminal(state: LedgerState, ctx: Refund, again: Take, back: Refund)
    requires
        refund_outcome(state, ctx) is Ok,
        again.escrow == ctx.escrow,
        back.escrow == ctx.escrow,
    ensures
        take_outcome(refund_effect(state, ctx), again) == Err::<(), EscrowError>(
            EscrowError::RecordNotFound,
        ),
        refund_outcome(refund_effect(state, ctx), back) == Err::<(), EscrowError>(
            EscrowError::RecordNotFound,
        ),
{
}

/// The operations keep a valid ledger valid: every escrow they leave open
/// stands at its own address, with a vault that answers to that address alone
/// and holds the deposited asset.
pub proof fn law_effects_keep_validity(
    state: LedgerState,
    make: Make,
    seed: u64,
    receive: u64,
    deposit: u64,
    adjustment: u8,
    take: Take,
    refund: Refund,
)
    requires
        state.valid(),
    ensures
        make_effect(state, make, seed, receive, deposit, adjustment).valid(),
        take_effect(state, take).valid(),
        refund_effect(state, refund).valid(),
{
}

} // verus!
