use safe_harbor::derivation::{escrow_address, vault_address};
use safe_harbor::{make, refund, take, Address, EscrowError, Ledger, Make, Refund, Take};

const PROGRAM: [u8; 32] = [200u8; 32];
const MAKER: [u8; 32] = [1u8; 32];
const TAKER: [u8; 32] = [2u8; 32];
const OTHER: [u8; 32] = [3u8; 32];
const ASSET_A: [u8; 32] = [10u8; 32];
const ASSET_B: [u8; 32] = [11u8; 32];

fn addr(bytes: [u8; 32]) -> Address {
    Address::new(bytes)
}

fn accounts(program: &Address, maker: &Address, seed: u64) -> Make {
    let (escrow, _) = escrow_address(program, maker, seed).unwrap();
    let (vault, _) = vault_address(program, &escrow).unwrap();
    Make { maker: *maker, asset_a: addr(ASSET_A), asset_b: addr(ASSET_B), escrow, vault }
}

fn funded() -> Ledger {
    let mut ledger = Ledger::new(addr(PROGRAM));
    assert!(ledger.issue(&addr(MAKER), &addr(ASSET_A), 100));
    assert!(ledger.issue(&addr(TAKER), &addr(ASSET_B), 50));
    ledger
}

#[test]
fn trade_is_settled_by_a_taker() {
    let mut ledger = funded();
    let ctx = accounts(&addr(PROGRAM), &addr(MAKER), 7);
    assert_eq!(make(&mut ledger, &ctx, 7, 50, 100), Ok(()));
    assert_eq!(ledger.balance(&addr(MAKER), &addr(ASSET_A)), 0);
    assert_eq!(ledger.escrow(&ctx.escrow).unwrap().vault.balance, 100);

    let settle = Take { taker: addr(TAKER), escrow: ctx.escrow, vault: ctx.vault };
    assert_eq!(take(&mut ledger, &settle), Ok(()));

    assert_eq!(ledger.balance(&addr(TAKER), &addr(ASSET_A)), 100);
    assert_eq!(ledger.balance(&addr(TAKER), &addr(ASSET_B)), 0);
    assert_eq!(ledger.balance(&addr(MAKER), &addr(ASSET_B)), 50);
    assert_eq!(ledger.balance(&addr(MAKER), &addr(ASSET_A)), 0);
    assert_eq!(ledger.escrow(&ctx.escrow), None);
}

#[test]
fn deposit_goes_back_to_the_maker_alone() {
    let mut ledger = funded();
    let ctx = accounts(&addr(PROGRAM), &addr(MAKER), 7);
    assert_eq!(make(&mut ledger, &ctx, 7, 50, 100), Ok(()));
    assert_eq!(ledger.balance(&addr(MAKER), &addr(ASSET_A)), 0);

    let stranger = Refund { caller: addr(OTHER), escrow: ctx.escrow, vault: ctx.vault };
    let before = ledger.clone();
    assert_eq!(refund(&mut ledger, &stranger), Err(EscrowError::Unauthorized));
    assert!(ledger.same_state(&before));
    assert_eq!(ledger.balance(&addr(OTHER), &addr(ASSET_A)), 0);
    assert_eq!(ledger.escrow(&ctx.escrow).unwrap().vault.balance, 100);

    let owner = Refund { caller: addr(MAKER), escrow: ctx.escrow, vault: ctx.vault };
    assert_eq!(refund(&mut ledger, &owner), Ok(()));
    assert_eq!(ledger.balance(&addr(MAKER), &addr(ASSET_A)), 100);
    assert_eq!(ledger.escrow(&ctx.escrow), None);
    assert_eq!(ledger.balance(&addr(TAKER), &addr(ASSET_B)), 50);
}

#[test]
fn of_two_takers_exactly_one_wins() {
    let mut ledger = funded();
    assert!(ledger.issue(&addr(OTHER), &addr(ASSET_B), 50));
    let ctx = accounts(&addr(PROGRAM), &addr(MAKER), 7);
    assert_eq!(make(&mut ledger, &ctx, 7, 50, 100), Ok(()));

    let first = Take { taker: addr(TAKER), escrow: ctx.escrow, vault: ctx.vault };
    let second = Take { taker: addr(OTHER), escrow: ctx.escrow, vault: ctx.vault };
    let results = [take(&mut ledger, &first), take(&mut ledger, &second)];
    assert_eq!(results, [Ok(()), Err(EscrowError::RecordNotFound)]);
    assert_eq!(results.iter().filter(|r| r.is_ok()).count(), 1);

    assert_eq!(ledger.balance(&addr(TAKER), &addr(ASSET_A)), 100);
    assert_eq!(ledger.balance(&addr(OTHER), &addr(ASSET_A)), 0);
    assert_eq!(ledger.balance(&addr(OTHER), &addr(ASSET_B)), 50);
    assert_eq!(ledger.balance(&addr(MAKER), &addr(ASSET_B)), 50);
}

#[test]
fn of_two_takers_the_other_order_gives_the_other_winner() {
    let mut ledger = funded();
    assert!(ledger.issue(&addr(OTHER), &addr(ASSET_B), 50));
    let ctx = accounts(&addr(PROGRAM), &addr(MAKER), 7);
    assert_eq!(make(&mut ledger, &ctx, 7, 50, 100), Ok(()));

    let first = Take { taker: addr(OTHER), escrow: ctx.escrow, vault: ctx.vault };
    let second = Take { taker: addr(TAKER), escrow: ctx.escrow, vault: ctx.vault };
    assert_eq!(take(&mut ledger, &first), Ok(()));
    assert_eq!(take(&mut ledger, &second), Err(EscrowError::RecordNotFound));

    assert_eq!(ledger.balance(&addr(OTHER), &addr(ASSET_A)), 100);
    assert_eq!(ledger.balance(&addr(TAKER), &addr(ASSET_A)), 0);
    assert_eq!(ledger.balance(&addr(TAKER), &addr(ASSET_B)), 50);
}

#[test]
fn take_races_refund_and_the_first_to_arrive_wins() {
    let mut ledger = funded();
    let ctx = accounts(&addr(PROGRAM), &addr(MAKER), 7);
    assert_eq!(make(&mut ledger, &ctx, 7, 50, 100), Ok(()));

    let back = Refund { caller: addr(MAKER), escrow: ctx.escrow, vault: ctx.vault };
    let settle = Take { taker: addr(TAKER), escrow: ctx.escrow, vault: ctx.vault };
    assert_eq!(refund(&mut ledger, &back), Ok(()));
    assert_eq!(take(&mut ledger, &settle), Err(EscrowError::RecordNotFound));

    assert_eq!(ledger.balance(&addr(MAKER), &addr(ASSET_A)), 100);
    assert_eq!(ledger.balance(&addr(TAKER), &addr(ASSET_B)), 50);
    assert_eq!(ledger.balance(&addr(TAKER), &addr(ASSET_A)), 0);
}
