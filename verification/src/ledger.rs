//! The ledger: who holds how much of which asset, and which escrows are open.

use crate::address::Address;
use crate::state::Escrow;
use vstd::prelude::*;

verus! {

/// The ledger as a mathematical value. Contracts speak of this.
pub struct LedgerState {
    /// The address of the program under which escrow addresses are derived.
    pub program: Address,
    /// What each owner holds of each asset, by `(owner, asset)`. Every pair
    /// has an amount: zero where nothing is held.
    pub balances: Map<(Address, Address), nat>,
    /// The open escrows, by the address of their record. An escrow is open
    /// exactly as long as its address is in this map.
    pub escrows: Map<Address, Escrow>,
}

impl LedgerState {
    /// The ledger of `program` on which nobody holds anything and no escrow
    /// is open.
    pub open spec fn empty(program: Address) -> LedgerState {
        LedgerState {
            program,
            balances: Map::total(|key: (Address, Address)| 0nat),
            escrows: Map::empty(),
        }
    }

    /// What `owner` holds of `asset`.
    pub open spec fn balance(self, owner: Address, asset: Address) -> nat {
        self.balances[(owner, asset)]
    }

    /// Whether an escrow record stands at `address`.
    pub open spec fn is_open(self, address: Address) -> bool {
        self.escrows.dom().contains(address)
    }

    /// The ledger after `owner` received `amount` of `asset`.
    pub open spec fn credited(self, owner: Address, asset: Address, amount: nat) -> LedgerState {
        LedgerState {
            balances: self.balances.insert((owner, asset), self.balance(owner, asset) + amount),
            ..self
        }
    }

    /// The ledger after `owner` gave away `amount` of `asset`.
    pub open spec fn debited(self, owner: Address, asset: Address, amount: nat) -> LedgerState
        recommends
            amount <= self.balance(owner, asset),
    {
        LedgerState {
            balances: self.balances.insert(
                (owner, asset),
                (self.balance(owner, asset) - amount) as nat,
            ),
            ..self
        }
    }

    /// The ledger after `amount` of `asset` moved from `from` to `to`.
    pub open spec fn moved(self, from: Address, to: Address, asset: Address, amount: nat) -> LedgerState
        recommends
            amount <= self.balance(from, asset),
    {
        self.debited(from, asset, amount).credited(to, asset, amount)
    }

    /// The ledger with `escrow` open at its address.
    pub open spec fn with_escrow(self, escrow: Escrow) -> LedgerState {
        LedgerState { escrows: self.escrows.insert(escrow.address, escrow), ..self }
    }

    /// The ledger with no escrow at `address`.
    pub open spec fn without_escrow(self, address: Address) -> LedgerState {
        LedgerState { escrows: self.escrows.remove(address), ..self }
    }

    /// Every pair of owner and asset has a balance, and every open escrow
    /// stands at its own address with a vault that answers to that address
    /// alone.
    pub open spec fn valid(self) -> bool {
        &&& forall|key: (Address, Address)| self.balances.dom().contains(key)
        &&& forall|address: Address| #[trigger]
            self.escrows.dom().contains(address) ==> self.escrows[address].well_formed_at(
                address,
            )
    }
}

/// One owner's holding of one asset.
#[derive(Clone, Copy, Debug, PartialEq, Eq)]
struct Holding {
    owner: Address,
    asset: Address,
    amount: u64,
}

spec fn holds(holdings: Seq<Holding>, i: int, owner: Address, asset: Address) -> bool {
    0 <= i < holdings.len() && holdings[i].owner == owner && holdings[i].asset == asset
}

spec fn distinct_holdings(holdings: Seq<Holding>) -> bool {
    forall|i: int, j: int|
        0 <= i < j < holdings.len() ==> !(holdings[i].owner == holdings[j].owner
            && holdings[i].asset == holdings[j].asset)
}

spec fn amount_of(holdings: Seq<Holding>, owner: Address, asset: Address) -> nat {
    if exists|i: int| holds(holdings, i, owner, asset) {
        holdings[choose|i: int| holds(holdings, i, owner, asset)].amount as nat
    } else {
        0
    }
}

spec fn stands(escrows: Seq<Escrow>, i: int, address: Address) -> bool {
    0 <= i < escrows.len() && escrows[i].address == address
}

spec fn distinct_escrows(escrows: Seq<Escrow>) -> bool {
    forall|i: int, j: int|
        0 <= i < j < escrows.len() ==> escrows[i].address != escrows[j].address
}

spec fn escrow_map(escrows: Seq<Escrow>) -> Map<Address, Escrow> {
    Map::new(
        |address: Address| exists|i: int| stands(escrows, i, address),
        |address: Address| escrows[choose|i: int| stands(escrows, i, address)],
    )
}

/// The sum of the amounts.
spec fn total(amounts: Seq<nat>) -> nat
    decreases amounts.len(),
{
    if amounts.len() == 0 {
        0
    } else {
        total(amounts.drop_last()) + amounts.last()
    }
}

/// What an amount of the asset `of` adds to the supply of `asset`.
spec fn share(of: Address, amount: u64, asset: Address) -> nat {
    if of == asset {
        amount as nat
    } else {
        0
    }
}

/// What each holding adds to the supply of `asset`.
spec fn held_shares(holdings: Seq<Holding>, asset: Address) -> Seq<nat> {
    Seq::new(holdings.len(), |i: int| share(holdings[i].asset, holdings[i].amount, asset))
}

/// What each vault adds to the supply of `asset`.
spec fn locked_shares(escrows: Seq<Escrow>, asset: Address) -> Seq<nat> {
    Seq::new(
        escrows.len(),
        |i: int| share(escrows[i].vault.asset, escrows[i].vault.balance, asset),
    )
}

proof fn lemma_total_push(amounts: Seq<nat>, amount: nat)
    ensures
        total(amounts.push(amount)) == total(amounts) + amount,
{
    assert(amounts.push(amount).drop_last() =~= amounts);
}

proof fn lemma_total_update(amounts: Seq<nat>, i: int, amount: nat)
    requires
        0 <= i < amounts.len(),
    ensures
        total(amounts.update(i, amount)) == total(amounts) - amounts[i] + amount,
    decreases amounts.len(),
{
    let updated = amounts.update(i, amount);
    if i == amounts.len() - 1 {
        assert(updated.drop_last() =~= amounts.drop_last());
    } else {
        lemma_total_update(amounts.drop_last(), i, amount);
        assert(updated.drop_last() =~= amounts.drop_last().update(i, amount));
    }
}

proof fn lemma_total_remove(amounts: Seq<nat>, i: int)
    requires
        0 <= i < amounts.len(),
    ensures
        total(amounts.remove(i)) == total(amounts) - amounts[i],
    decreases amounts.len(),
{
    let removed = amounts.remove(i);
    if i < amounts.len() - 1 {
        lemma_total_remove(amounts.drop_last(), i);
        assert(removed.drop_last() =~= amounts.drop_last().remove(i));
    }
}

proof fn lemma_total_bounds(amounts: Seq<nat>, i: int)
    requires
        0 <= i < amounts.len(),
    ensures
        amounts[i] <= total(amounts),
    decreases amounts.len(),
{
    if i < amounts.len() - 1 {
        lemma_total_bounds(amounts.drop_last(), i);
    }
}

proof fn lemma_total_take(amounts: Seq<nat>, n: int)
    requires
        0 <= n <= amounts.len(),
    ensures
        total(amounts.take(n)) <= total(amounts),
        n < amounts.len() ==> total(amounts.take(n + 1)) == total(amounts.take(n)) + amounts[n],
        n == amounts.len() ==> total(amounts.take(n)) == total(amounts),
    decreases amounts.len(),
{
    if n == amounts.len() {
        assert(amounts.take(n) =~= amounts);
    } else {
        lemma_total_take(amounts.drop_last(), n);
        assert(amounts.drop_last().take(n) =~= amounts.take(n));
        assert(amounts.take(n + 1).drop_last() =~= amounts.take(n));
    }
}

proof fn lemma_amount_at(holdings: Seq<Holding>, i: int)
    requires
        distinct_holdings(holdings),
        0 <= i < holdings.len(),
    ensures
        amount_of(holdings, holdings[i].owner, holdings[i].asset) == holdings[i].amount,
{
    assert(holds(holdings, i, holdings[i].owner, holdings[i].asset));
}

/// Changing the amount of one holding changes that balance and no other.
proof fn lemma_holdings_update(holdings: Seq<Holding>, i: int, holding: Holding)
    requires
        distinct_holdings(holdings),
        0 <= i < holdings.len(),
        holding.owner == holdings[i].owner,
        holding.asset == holdings[i].asset,
    ensures
        distinct_holdings(holdings.update(i, holding)),
        forall|owner: Address, asset: Address|
            #[trigger] amount_of(holdings.update(i, holding), owner, asset) == if owner
                == holding.owner && asset == holding.asset {
                holding.amount as nat
            } else {
                amount_of(holdings, owner, asset)
            },
        forall|asset: Address|
            #[trigger] total(held_shares(holdings.update(i, holding), asset)) == total(
                held_shares(holdings, asset),
            ) - share(holding.asset, holdings[i].amount, asset) + share(
                holding.asset,
                holding.amount,
                asset,
            ),
{
    let updated = holdings.update(i, holding);
    assert(distinct_holdings(updated));
    assert forall|owner: Address, asset: Address|
        #[trigger] amount_of(updated, owner, asset) == if owner == holding.owner && asset
            == holding.asset {
            holding.amount as nat
        } else {
            amount_of(holdings, owner, asset)
        } by {
        if exists|j: int| holds(updated, j, owner, asset) {
            let j: int = choose|j: int| holds(updated, j, owner, asset);
            lemma_amount_at(updated, j);
            lemma_amount_at(holdings, j);
        } else {
            assert(!holds(updated, i, owner, asset));
            assert forall|j: int| !holds(holdings, j, owner, asset) by {
                assert(!holds(updated, j, owner, asset));
            }
        }
    }
    assert forall|asset: Address|
        #[trigger] total(held_shares(updated, asset)) == total(held_shares(holdings, asset))
            - share(holding.asset, holdings[i].amount, asset) + share(
            holding.asset,
            holding.amount,
            asset,
        ) by {
        let added: nat = share(holding.asset, holding.amount, asset);
        assert(held_shares(updated, asset) =~= held_shares(holdings, asset).update(i, added));
        lemma_total_update(held_shares(holdings, asset), i, added);
    }
}

/// A new holding adds its balance and changes no other.
proof fn lemma_holdings_push(holdings: Seq<Holding>, holding: Holding)
    requires
        distinct_holdings(holdings),
        forall|i: int| !holds(holdings, i, holding.owner, holding.asset),
    ensures
        distinct_holdings(holdings.push(holding)),
        forall|owner: Address, asset: Address|
            #[trigger] amount_of(holdings.push(holding), owner, asset) == if owner
                == holding.owner && asset == holding.asset {
                holding.amount as nat
            } else {
                amount_of(holdings, owner, asset)
            },
        forall|asset: Address|
            #[trigger] total(held_shares(holdings.push(holding), asset)) == total(
                held_shares(holdings, asset),
            ) + share(holding.asset, holding.amount, asset),
{
    let pushed = holdings.push(holding);
    assert forall|i: int, j: int| 0 <= i < j < pushed.len() implies !(pushed[i].owner
        == pushed[j].owner && pushed[i].asset == pushed[j].asset) by {
        if j == holdings.len() {
            assert(!holds(holdings, i, holding.owner, holding.asset));
        }
    }
    assert forall|owner: Address, asset: Address|
        #[trigger] amount_of(pushed, owner, asset) == if owner == holding.owner && asset
            == holding.asset {
            holding.amount as nat
        } else {
            amount_of(holdings, owner, asset)
        } by {
        if exists|j: int| holds(pushed, j, owner, asset) {
            let j: int = choose|j: int| holds(pushed, j, owner, asset);
            lemma_amount_at(pushed, j);
            if j < holdings.len() {
                assert(holds(holdings, j, owner, asset));
                lemma_amount_at(holdings, j);
            }
        } else {
            assert(!holds(pushed, holdings.len() as int, owner, asset));
            assert forall|j: int| !holds(holdings, j, owner, asset) by {
                assert(!holds(pushed, j, owner, asset));
            }
        }
    }
    assert forall|asset: Address|
        #[trigger] total(held_shares(pushed, asset)) == total(held_shares(holdings, asset))
            + share(holding.asset, holding.amount, asset) by {
        let added: nat = share(holding.asset, holding.amount, asset);
        assert(held_shares(pushed, asset) =~= held_shares(holdings, asset).push(added));
        lemma_total_push(held_shares(holdings, asset), added);
    }
}

proof fn lemma_escrow_at(escrows: Seq<Escrow>, i: int)
    requires
        distinct_escrows(escrows),
        0 <= i < escrows.len(),
    ensures
        escrow_map(escrows).dom().contains(escrows[i].address),
        escrow_map(escrows)[escrows[i].address] == escrows[i],
{
    assert(stands(escrows, i, escrows[i].address));
}

/// A new escrow at an unused address is added to the map and to the supply.
proof fn lemma_escrows_push(escrows: Seq<Escrow>, escrow: Escrow)
    requires
        distinct_escrows(escrows),
        forall|i: int| !stands(escrows, i, escrow.address),
    ensures
        distinct_escrows(escrows.push(escrow)),
        escrow_map(escrows.push(escrow)) == escrow_map(escrows).insert(escrow.address, escrow),
        forall|asset: Address|
            #[trigger] total(locked_shares(escrows.push(escrow), asset)) == total(
                locked_shares(escrows, asset),
            ) + share(escrow.vault.asset, escrow.vault.balance, asset),
{
    let pushed = escrows.push(escrow);
    assert forall|i: int, j: int| 0 <= i < j < pushed.len() implies pushed[i].address
        != pushed[j].address by {
        if j == escrows.len() {
            assert(!stands(escrows, i, escrow.address));
        }
    }
    let inserted = escrow_map(escrows).insert(escrow.address, escrow);
    assert forall|address: Address| escrow_map(pushed).dom().contains(address) implies (
    #[trigger] inserted.dom().contains(address)) && escrow_map(pushed)[address]
        == inserted[address] by {
        let j: int = choose|j: int| stands(pushed, j, address);
        lemma_escrow_at(pushed, j);
        if j < escrows.len() {
            lemma_escrow_at(escrows, j);
        }
    }
    assert forall|address: Address| #[trigger] inserted.dom().contains(address) implies escrow_map(
        pushed,
    ).dom().contains(address) by {
        if address == escrow.address {
            assert(stands(pushed, escrows.len() as int, address));
        } else {
            let j: int = choose|j: int| stands(escrows, j, address);
            assert(stands(pushed, j, address));
        }
    }
    assert forall|asset: Address|
        #[trigger] total(locked_shares(pushed, asset)) == total(locked_shares(escrows, asset))
            + share(escrow.vault.asset, escrow.vault.balance, asset) by {
        let added: nat = share(escrow.vault.asset, escrow.vault.balance, asset);
        assert(locked_shares(pushed, asset) =~= locked_shares(escrows, asset).push(added));
        lemma_total_push(locked_shares(escrows, asset), added);
    }
}

/// Taking an escrow out removes it from the map and from the supply.
proof fn lemma_escrows_remove(escrows: Seq<Escrow>, i: int)
    requires
        distinct_escrows(escrows),
        0 <= i < escrows.len(),
    ensures
        distinct_escrows(escrows.remove(i)),
        escrow_map(escrows.remove(i)) == escrow_map(escrows).remove(escrows[i].address),
        forall|asset: Address|
            #[trigger] total(locked_shares(escrows.remove(i), asset)) == total(
                locked_shares(escrows, asset),
            ) - share(escrows[i].vault.asset, escrows[i].vault.balance, asset),
{
    let removed = escrows.remove(i);
    let rest = escrow_map(escrows).remove(escrows[i].address);
    assert forall|j: int, k: int| 0 <= j < k < removed.len() implies removed[j].address
        != removed[k].address by {
        let before: int = if j < i {
            j
        } else {
            j + 1
        };
        let after: int = if k < i {
            k
        } else {
            k + 1
        };
        assert(removed[j] == escrows[before] && removed[k] == escrows[after]);
    }
    assert forall|address: Address| #[trigger]
        escrow_map(removed).dom().contains(address) implies rest.dom().contains(address)
        && escrow_map(removed)[address] == rest[address] by {
        let j: int = choose|j: int| stands(removed, j, address);
        lemma_escrow_at(removed, j);
        let k: int = if j < i {
            j
        } else {
            j + 1
        };
        assert(removed[j] == escrows[k]);
        assert(stands(escrows, k, address));
        lemma_escrow_at(escrows, k);
        assert(escrows[k].address != escrows[i].address);
    }
    assert forall|address: Address| #[trigger]
        rest.dom().contains(address) implies escrow_map(removed).dom().contains(address) by {
        assert(escrow_map(escrows).dom().contains(address));
        let k: int = choose|k: int| stands(escrows, k, address);
        assert(k != i);
        let j: int = if k < i {
            k
        } else {
            k - 1
        };
        assert(removed[j] == escrows[k]);
        assert(stands(removed, j, address));
    }
    assert(escrow_map(removed) =~= rest);
    assert forall|asset: Address|
        #[trigger] total(locked_shares(removed, asset)) == total(locked_shares(escrows, asset))
            - share(escrows[i].vault.asset, escrows[i].vault.balance, asset) by {
        assert(locked_shares(removed, asset) =~= locked_shares(escrows, asset).remove(i));
        lemma_total_remove(locked_shares(escrows, asset), i);
    }
}

spec fn holding_kept_on(holdings: Seq<Holding>, i: int, state: LedgerState) -> bool {
    state.balance(holdings[i].owner, holdings[i].asset) == holdings[i].amount
}

spec fn escrow_kept_on(escrows: Seq<Escrow>, i: int, state: LedgerState) -> bool {
    state.is_open(escrows[i].address) && state.escrows[escrows[i].address] == escrows[i]
}

/// Each of the holdings and each of the escrows is the same in `state`.
spec fn kept_on(holdings: Seq<Holding>, escrows: Seq<Escrow>, state: LedgerState) -> bool {
    &&& forall|i: int| 0 <= i < holdings.len() ==> holding_kept_on(holdings, i, state)
    &&& forall|i: int| 0 <= i < escrows.len() ==> escrow_kept_on(escrows, i, state)
}

fn same_escrow(one: &Escrow, other: &Escrow) -> (same: bool)
    ensures
        same == (*one == *other),
{
    one.address == other.address && one.record.seed == other.record.seed && one.record.maker
        == other.record.maker && one.record.asset_a == other.record.asset_a
        && one.record.asset_b == other.record.asset_b && one.record.receive_amount
        == other.record.receive_amount && one.record.derivation_adjustment
        == other.record.derivation_adjustment && one.vault.address == other.vault.address
        && one.vault.authority == other.vault.authority && one.vault.asset == other.vault.asset
        && one.vault.balance == other.vault.balance
}

/// The ledger. Its balances change only by `issue` and by the escrow
/// operations, and its escrows only by the escrow operations.
#[derive(Debug)]
pub struct Ledger {
    program: Address,
    holdings: Vec<Holding>,
    escrows: Vec<Escrow>,
}

impl View for Ledger {
    type V = LedgerState;

    closed spec fn view(&self) -> LedgerState {
        LedgerState {
            program: self.program,
            balances: Map::total(
                |key: (Address, Address)| amount_of(self.holdings@, key.0, key.1),
            ),
            escrows: escrow_map(self.escrows@),
        }
    }
}

impl Clone for Ledger {
    /// A ledger of its own in the same state.
    fn clone(&self) -> (copy: Ledger)
        ensures
            copy@ == self@,
            copy.wf() == self.wf(),
            forall|asset: Address| #[trigger] copy.supply(asset) == self.supply(asset),
    {
        let mut holdings: Vec<Holding> = Vec::new();
        let mut i: usize = 0;
        while i < self.holdings.len()
            invariant
                i <= self.holdings.len(),
                holdings@ == self.holdings@.take(i as int),
            decreases self.holdings.len() - i,
        {
            holdings.push(self.holdings[i]);
            i += 1;
        }
        let mut escrows: Vec<Escrow> = Vec::new();
        let mut k: usize = 0;
        while k < self.escrows.len()
            invariant
                k <= self.escrows.len(),
                escrows@ == self.escrows@.take(k as int),
            decreases self.escrows.len() - k,
        {
            escrows.push(self.escrows[k]);
            k += 1;
        }
        assert(holdings@ =~= self.holdings@);
        assert(escrows@ =~= self.escrows@);
        let copy = Ledger { program: self.program, holdings, escrows };
        proof {
            if self.wf() {
                assert forall|asset: Address| #[trigger] copy.supply(asset) <= u64::MAX by {
                    assert(self.supply(asset) <= u64::MAX);
                }
            }
            if copy.wf() {
                assert forall|asset: Address| #[trigger] self.supply(asset) <= u64::MAX by {
                    assert(copy.supply(asset) <= u64::MAX);
                }
            }
        }
        copy
    }
}

impl Ledger {
    /// All that exists of `asset`: what the owners hold and what the vaults
    /// hold.
    pub closed spec fn supply(&self, asset: Address) -> nat {
        total(held_shares(self.holdings@, asset)) + total(locked_shares(self.escrows@, asset))
    }

    /// The ledger is consistent: one balance for each owner and asset, one
    /// escrow for each address, each vault under its record's authority, and
    /// a supply of each asset that fits in 64 bits.
    pub closed spec fn wf(&self) -> bool {
        &&& distinct_holdings(self.holdings@)
        &&& distinct_escrows(self.escrows@)
        &&& forall|i: int|
            0 <= i < self.escrows@.len() ==> (#[trigger] self.escrows@[i]).well_formed_at(
                self.escrows@[i].address,
            )
        &&& forall|asset: Address| #[trigger] self.supply(asset) <= u64::MAX
    }

    /// A consistent ledger has a valid state.
    pub proof fn lemma_wf_valid(&self)
        requires
            self.wf(),
        ensures
            self@.valid(),
    {
        assert forall|address: Address| #[trigger]
            self@.escrows.dom().contains(address) implies self@.escrows[address].well_formed_at(
            address,
        ) by {
            let i: int = choose|i: int| stands(self.escrows@, i, address);
            lemma_escrow_at(self.escrows@, i);
        }
    }

    /// The supply of every asset fits in 64 bits.
    pub proof fn lemma_supply_fits(&self, asset: Address)
        requires
            self.wf(),
        ensures
            self.supply(asset) <= u64::MAX,
    {
    }

    /// Nobody holds more of an asset than exists of it, and no vault does.
    pub proof fn lemma_supply_bounds(&self, owner: Address, escrow: Address, asset: Address)
        requires
            self.wf(),
        ensures
            self@.balance(owner, asset) <= self.supply(asset),
            self@.is_open(escrow) && self@.escrows[escrow].vault.asset == asset
                ==> self@.escrows[escrow].vault.balance <= self.supply(asset),
    {
        if exists|i: int| holds(self.holdings@, i, owner, asset) {
            let i: int = choose|i: int| holds(self.holdings@, i, owner, asset);
            lemma_total_bounds(held_shares(self.holdings@, asset), i);
        }
        if self@.is_open(escrow) && self@.escrows[escrow].vault.asset == asset {
            let i: int = choose|i: int| stands(self.escrows@, i, escrow);
            lemma_escrow_at(self.escrows@, i);
            lemma_total_bounds(locked_shares(self.escrows@, asset), i);
        }
    }

    /// The empty ledger of `program`.
    pub fn new(program: Address) -> (ledger: Ledger)
        ensures
            ledger.wf(),
            ledger@ == LedgerState::empty(program),
            forall|asset: Address| #[trigger] ledger.supply(asset) == 0,
    {
        let ledger = Ledger { program, holdings: Vec::new(), escrows: Vec::new() };
        assert(ledger@.balances =~= LedgerState::empty(program).balances);
        assert(ledger@.escrows =~= LedgerState::empty(program).escrows);
        ledger
    }

    /// The address of the program under which escrow addresses are derived.
    pub fn program(&self) -> (program: Address)
        ensures
            program == self@.program,
    {
        self.program
    }

    fn find_holding(&self, owner: &Address, asset: &Address) -> (found: Option<usize>)
        ensures
            match found {
                Some(i) => holds(self.holdings@, i as int, *owner, *asset),
                None => forall|i: int| !holds(self.holdings@, i, *owner, *asset),
            },
    {
        let mut i: usize = 0;
        while i < self.holdings.len()
            invariant
                i <= self.holdings.len(),
                forall|j: int| 0 <= j < i ==> !holds(self.holdings@, j, *owner, *asset),
            decreases self.holdings.len() - i,
        {
            if self.holdings[i].owner == *owner && self.holdings[i].asset == *asset {
                return Some(i);
            }
            i += 1;
        }
        None
    }

    fn find_escrow(&self, address: &Address) -> (found: Option<usize>)
        ensures
            match found {
                Some(i) => stands(self.escrows@, i as int, *address),
                None => forall|i: int| !stands(self.escrows@, i, *address),
            },
    {
        let mut i: usize = 0;
        while i < self.escrows.len()
            invariant
                i <= self.escrows.len(),
                forall|j: int| 0 <= j < i ==> !stands(self.escrows@, j, *address),
            decreases self.escrows.len() - i,
        {
            if self.escrows[i].address == *address {
                return Some(i);
            }
            i += 1;
        }
        None
    }

    /// What `owner` holds of `asset`.
    pub fn balance(&self, owner: &Address, asset: &Address) -> (amount: u64)
        requires
            self.wf(),
        ensures
            amount == self@.balance(*owner, *asset),
    {
        match self.find_holding(owner, asset) {
            Some(i) => {
                proof {
                    lemma_amount_at(self.holdings@, i as int);
                }
                self.holdings[i].amount
            },
            None => 0,
        }
    }

    /// The open escrow at `address`, if there is one.
    pub fn escrow(&self, address: &Address) -> (found: Option<Escrow>)
        requires
            self.wf(),
        ensures
            found == if self@.is_open(*address) {
                Some(self@.escrows[*address])
            } else {
                None
            },
    {
        match self.find_escrow(address) {
            Some(i) => {
                proof {
                    lemma_escrow_at(self.escrows@, i as int);
                }
                Some(self.escrows[i])
            },
            None => None,
        }
    }

    /// Whether each balance and each escrow that this ledger keeps is the
    /// same on `other`.
    fn within(&self, other: &Ledger) -> (within: bool)
        requires
            self.wf(),
            other.wf(),
        ensures
            within == kept_on(self.holdings@, self.escrows@, other@),
    {
        let mut i: usize = 0;
        while i < self.holdings.len()
            invariant
                i <= self.holdings.len(),
                other.wf(),
                forall|j: int| 0 <= j < i ==> holding_kept_on(self.holdings@, j, other@),
            decreases self.holdings.len() - i,
        {
            let holding = self.holdings[i];
            if other.balance(&holding.owner, &holding.asset) != holding.amount {
                assert(!holding_kept_on(self.holdings@, i as int, other@));
                return false;
            }
            i += 1;
        }
        let mut k: usize = 0;
        while k < self.escrows.len()
            invariant
                k <= self.escrows.len(),
                other.wf(),
                forall|j: int| 0 <= j < k ==> escrow_kept_on(self.escrows@, j, other@),
            decreases self.escrows.len() - k,
        {
            let escrow = self.escrows[k];
            let same = match other.escrow(&escrow.address) {
                Some(found) => same_escrow(&found, &escrow),
                None => false,
            };
            if !same {
                assert(!escrow_kept_on(self.escrows@, k as int, other@));
                return false;
            }
            k += 1;
        }
        true
    }

    /// Whether the two ledgers are in the same state: the same program, the
    /// same balances and the same open escrows.
    pub fn same_state(&self, other: &Ledger) -> (same: bool)
        requires
            self.wf(),
            other.wf(),
        ensures
            same == (self@ == other@),
    {
        if self.program != other.program {
            return false;
        }
        proof {
            self.lemma_same_state(other);
        }
        self.within(other) && other.within(self)
    }

    /// Two ledgers of one program are in the same state exactly when each
    /// keeps what the other does.
    proof fn lemma_same_state(&self, other: &Ledger)
        requires
            self.wf(),
            other.wf(),
            self.program == other.program,
        ensures
            (self@ == other@) == (kept_on(self.holdings@, self.escrows@, other@) && kept_on(
                other.holdings@,
                other.escrows@,
                self@,
            )),
    {
        if self@ == other@ {
            self.lemma_keeps_its_own();
            other.lemma_keeps_its_own();
        }
        if kept_on(self.holdings@, self.escrows@, other@) && kept_on(
            other.holdings@,
            other.escrows@,
            self@,
        ) {
            assert forall|key: (Address, Address)| self@.balances[key] == other@.balances[key] by {
                if exists|i: int| holds(self.holdings@, i, key.0, key.1) {
                    let i: int = choose|i: int| holds(self.holdings@, i, key.0, key.1);
                    lemma_amount_at(self.holdings@, i);
                    assert(holding_kept_on(self.holdings@, i, other@));
                } else if exists|i: int| holds(other.holdings@, i, key.0, key.1) {
                    let i: int = choose|i: int| holds(other.holdings@, i, key.0, key.1);
                    lemma_amount_at(other.holdings@, i);
                    assert(holding_kept_on(other.holdings@, i, self@));
                }
            }
            assert(self@.balances =~= other@.balances);
            assert forall|address: Address| #[trigger]
                self@.escrows.dom().contains(address) implies other@.escrows.dom().contains(
                address,
            ) && other@.escrows[address] == self@.escrows[address] by {
                let i: int = choose|i: int| stands(self.escrows@, i, address);
                lemma_escrow_at(self.escrows@, i);
                assert(escrow_kept_on(self.escrows@, i, other@));
            }
            assert forall|address: Address| #[trigger]
                other@.escrows.dom().contains(address) implies self@.escrows.dom().contains(
                address,
            ) by {
                let i: int = choose|i: int| stands(other.escrows@, i, address);
                lemma_escrow_at(other.escrows@, i);
                assert(escrow_kept_on(other.escrows@, i, self@));
            }
            assert(self@.escrows =~= other@.escrows);
        }
    }

    /// A ledger keeps what it keeps.
    proof fn lemma_keeps_its_own(&self)
        requires
            self.wf(),
        ensures
            kept_on(self.holdings@, self.escrows@, self@),
    {
        assert forall|i: int| 0 <= i < self.holdings@.len() implies holding_kept_on(
            self.holdings@,
            i,
            self@,
        ) by {
            lemma_amount_at(self.holdings@, i);
        }
        assert forall|i: int| 0 <= i < self.escrows@.len() implies escrow_kept_on(
            self.escrows@,
            i,
            self@,
        ) by {
            lemma_escrow_at(self.escrows@, i);
        }
    }

    /// All that exists of `asset`.
    pub fn supply_of(&self, asset: &Address) -> (supply: u64)
        requires
            self.wf(),
        ensures
            supply == self.supply(*asset),
    {
        let ghost in_hands = held_shares(self.holdings@, *asset);
        let ghost in_vaults = locked_shares(self.escrows@, *asset);
        assert(self.supply(*asset) <= u64::MAX);
        let mut held: u64 = 0;
        let mut i: usize = 0;
        while i < self.holdings.len()
            invariant
                i <= self.holdings.len(),
                in_hands == held_shares(self.holdings@, *asset),
                held == total(in_hands.take(i as int)),
                total(in_hands) <= u64::MAX,
            decreases self.holdings.len() - i,
        {
            proof {
                lemma_total_take(in_hands, i as int);
                lemma_total_take(in_hands, i + 1);
            }
            if self.holdings[i].asset == *asset {
                held = held + self.holdings[i].amount;
            }
            i += 1;
        }
        let mut locked: u64 = 0;
        let mut k: usize = 0;
        while k < self.escrows.len()
            invariant
                k <= self.escrows.len(),
                in_vaults == locked_shares(self.escrows@, *asset),
                locked == total(in_vaults.take(k as int)),
                total(in_vaults) <= u64::MAX,
            decreases self.escrows.len() - k,
        {
            proof {
                lemma_total_take(in_vaults, k as int);
                lemma_total_take(in_vaults, k + 1);
            }
            if self.escrows[k].vault.asset == *asset {
                locked = locked + self.escrows[k].vault.balance;
            }
            k += 1;
        }
        proof {
            lemma_total_take(in_hands, i as int);
            lemma_total_take(in_vaults, k as int);
        }
        held + locked
    }

    /// Takes `amount` of `asset` from `owner`, who must hold as much:
    /// otherwise nothing changes.
    pub(crate) fn debit(&mut self, owner: &Address, asset: &Address, amount: u64) -> (done: bool)
        requires
            old(self).wf(),
        ensures
            final(self).wf(),
            done == (amount <= old(self)@.balance(*owner, *asset)),
            final(self)@ == if done {
                old(self)@.debited(*owner, *asset, amount as nat)
            } else {
                old(self)@
            },
            forall|other: Address|
                #[trigger] final(self).supply(other) == old(self).supply(other) - if done && other
                    == *asset {
                    amount as int
                } else {
                    0
                },
    {
        match self.find_holding(owner, asset) {
            Some(i) => {
                let holding = self.holdings[i];
                proof {
                    lemma_amount_at(self.holdings@, i as int);
                }
                if holding.amount < amount {
                    return false;
                }
                let rest = Holding { amount: holding.amount - amount, ..holding };
                proof {
                    lemma_holdings_update(self.holdings@, i as int, rest);
                }
                self.holdings.set(i, rest);
                assert forall|other: Address| #[trigger] self.supply(other) <= u64::MAX by {
                    assert(old(self).supply(other) <= u64::MAX);
                }
                assert(self@.balances =~= old(self)@.debited(
                    *owner,
                    *asset,
                    amount as nat,
                ).balances);
                true
            },
            None => {
                if amount > 0 {
                    return false;
                }
                assert(self@.balances =~= old(self)@.debited(
                    *owner,
                    *asset,
                    amount as nat,
                ).balances);
                true
            },
        }
    }

    /// Gives `amount` of `asset` to `owner`.
    pub(crate) fn credit(&mut self, owner: &Address, asset: &Address, amount: u64)
        requires
            old(self).wf(),
            old(self).supply(*asset) + amount <= u64::MAX,
        ensures
            final(self).wf(),
            final(self)@ == old(self)@.credited(*owner, *asset, amount as nat),
            forall|other: Address|
                #[trigger] final(self).supply(other) == old(self).supply(other) + if other
                    == *asset {
                    amount as int
                } else {
                    0
                },
    {
        match self.find_holding(owner, asset) {
            Some(i) => {
                let holding = self.holdings[i];
                proof {
                    lemma_amount_at(self.holdings@, i as int);
                    lemma_total_bounds(held_shares(self.holdings@, *asset), i as int);
                }
                let more = Holding { amount: holding.amount + amount, ..holding };
                proof {
                    lemma_holdings_update(self.holdings@, i as int, more);
                }
                self.holdings.set(i, more);
            },
            None => {
                let fresh = Holding { owner: *owner, asset: *asset, amount };
                proof {
                    lemma_holdings_push(self.holdings@, fresh);
                }
                self.holdings.push(fresh);
            },
        }
        assert forall|other: Address| #[trigger] self.supply(other) <= u64::MAX by {
            assert(old(self).supply(other) <= u64::MAX);
        }
        assert(self@.balances =~= old(self)@.credited(*owner, *asset, amount as nat).balances);
    }

    /// Puts new units of `asset` into circulation, in the hands of `owner`.
    /// Nothing is issued where the supply would no longer fit in 64 bits.
    pub fn issue(&mut self, owner: &Address, asset: &Address, amount: u64) -> (issued: bool)
        requires
            old(self).wf(),
        ensures
            final(self).wf(),
            issued == (old(self).supply(*asset) + amount <= u64::MAX),
            final(self)@ == if issued {
                old(self)@.credited(*owner, *asset, amount as nat)
            } else {
                old(self)@
            },
            forall|other: Address|
                #[trigger] final(self).supply(other) == old(self).supply(other) + if issued
                    && other == *asset {
                    amount as int
                } else {
                    0
                },
    {
        let supply: u64 = self.supply_of(asset);
        if amount > u64::MAX - supply {
            return false;
        }
        self.credit(owner, asset, amount);
        true
    }

    /// Opens `escrow` at its address, which must be free.
    pub(crate) fn insert_escrow(&mut self, escrow: Escrow)
        requires
            old(self).wf(),
            !old(self)@.is_open(escrow.address),
            escrow.well_formed_at(escrow.address),
            old(self).supply(escrow.vault.asset) + escrow.vault.balance <= u64::MAX,
        ensures
            final(self).wf(),
            final(self)@ == old(self)@.with_escrow(escrow),
            forall|other: Address|
                #[trigger] final(self).supply(other) == old(self).supply(other) + if other
                    == escrow.vault.asset {
                    escrow.vault.balance as int
                } else {
                    0
                },
    {
        proof {
            assert forall|i: int| !stands(self.escrows@, i, escrow.address) by {
                if stands(self.escrows@, i, escrow.address) {
                    lemma_escrow_at(self.escrows@, i);
                }
            }
            lemma_escrows_push(self.escrows@, escrow);
        }
        self.escrows.push(escrow);
        assert forall|other: Address| #[trigger] self.supply(other) <= u64::MAX by {
            assert(old(self).supply(other) <= u64::MAX);
        }
    }

    /// Closes the escrow at `address`, if one is open there, and hands it
    /// out: its record and its vault leave the ledger together.
    pub(crate) fn remove_escrow(&mut self, address: &Address) -> (removed: Option<Escrow>)
        requires
            old(self).wf(),
        ensures
            final(self).wf(),
            removed == if old(self)@.is_open(*address) {
                Some(old(self)@.escrows[*address])
            } else {
                None
            },
            final(self)@ == old(self)@.without_escrow(*address),
            forall|other: Address|
                #[trigger] final(self).supply(other) == old(self).supply(other) - match removed {
                    Some(escrow) if escrow.vault.asset == other => escrow.vault.balance as int,
                    _ => 0,
                },
    {
        match self.find_escrow(address) {
            Some(i) => {
                proof {
                    lemma_escrow_at(self.escrows@, i as int);
                    lemma_escrows_remove(self.escrows@, i as int);
                }
                let escrow = self.escrows.remove(i);
                assert forall|other: Address| #[trigger] self.supply(other) <= u64::MAX by {
                    assert(old(self).supply(other) <= u64::MAX);
                }
                Some(escrow)
            },
            None => {
                assert(self@.escrows =~= old(self)@.without_escrow(*address).escrows);
                None
            },
        }
    }
}

} // verus!
