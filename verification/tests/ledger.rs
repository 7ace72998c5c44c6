use safe_harbor::{Address, Ledger};

fn owner() -> Address {
    Address::new([5u8; 32])
}

fn asset() -> Address {
    Address::new([6u8; 32])
}

#[test]
fn a_new_ledger_is_empty() {
    let ledger = Ledger::new(Address::new([9u8; 32]));
    assert_eq!(ledger.program(), Address::new([9u8; 32]));
    assert_eq!(ledger.balance(&owner(), &asset()), 0);
    assert_eq!(ledger.supply_of(&asset()), 0);
    assert_eq!(ledger.escrow(&owner()), None);
}

#[test]
fn issue_adds_to_one_balance() {
    let mut ledger = Ledger::new(Address::new([9u8; 32]));
    assert!(ledger.issue(&owner(), &asset(), 5));
    assert!(ledger.issue(&owner(), &asset(), 7));
    assert!(ledger.issue(&asset(), &owner(), 3));
    assert_eq!(ledger.balance(&owner(), &asset()), 12);
    assert_eq!(ledger.balance(&asset(), &owner()), 3);
    assert_eq!(ledger.balance(&asset(), &asset()), 0);
    assert_eq!(ledger.supply_of(&asset()), 12);
    assert_eq!(ledger.supply_of(&owner()), 3);
}

#[test]
fn issue_stops_where_the_supply_would_not_fit() {
    let mut ledger = Ledger::new(Address::new([9u8; 32]));
    assert!(ledger.issue(&owner(), &asset(), u64::MAX - 1));
    assert!(ledger.issue(&asset(), &asset(), 1));
    let before = ledger.clone();
    assert!(!ledger.issue(&owner(), &asset(), 1));
    assert!(!ledger.issue(&Address::new([7u8; 32]), &asset(), u64::MAX));
    assert!(ledger.same_state(&before));
    assert!(ledger.issue(&owner(), &asset(), 0));
    assert_eq!(ledger.balance(&owner(), &asset()), u64::MAX - 1);
    assert_eq!(ledger.supply_of(&asset()), u64::MAX);
    assert!(ledger.issue(&owner(), &owner(), u64::MAX));
}

#[test]
fn same_state_looks_at_balances_not_at_their_order() {
    let program = Address::new([9u8; 32]);
    let mut one = Ledger::new(program);
    let mut two = Ledger::new(program);
    assert!(one.same_state(&two));
    assert!(one.issue(&owner(), &asset(), 5));
    assert!(!one.same_state(&two));
    assert!(!two.same_state(&one));
    assert!(one.issue(&asset(), &owner(), 3));
    assert!(two.issue(&asset(), &owner(), 3));
    assert!(two.issue(&owner(), &asset(), 4));
    assert!(!one.same_state(&two));
    assert!(two.issue(&owner(), &asset(), 1));
    assert!(one.same_state(&two));
    assert!(two.same_state(&one));
    assert!(two.issue(&owner(), &owner(), 0));
    assert!(one.same_state(&two));
    assert!(two.same_state(&one));
}

#[test]
fn same_state_tells_programs_apart() {
    let one = Ledger::new(Address::new([9u8; 32]));
    let two = Ledger::new(Address::new([8u8; 32]));
    assert!(!one.same_state(&two));
    assert!(one.same_state(&one.clone()));
}
