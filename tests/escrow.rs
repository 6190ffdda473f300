use escrow::{derive_escrow_address, make, refund, take, Escrow, EscrowError, Ledger, ESCROW_BUMP};

const MAKER: u64 = 1;
const TAKER: u64 = 2;
const STRANGER: u64 = 3;
const ASSET_A: u64 = 10;
const ASSET_B: u64 = 20;

fn funded() -> Ledger {
    let mut l = Ledger::new();
    l.mint_to(MAKER, ASSET_A, 100).unwrap();
    l.mint_to(TAKER, ASSET_B, 80).unwrap();
    l
}

#[test]
fn make_locks_deposit_and_records_inputs() {
    let mut l = funded();
    assert_eq!(make(&mut l, MAKER, ASSET_A, ASSET_B, 1, 100, 50), Ok(()));
    let t = l.trade((MAKER, 1)).unwrap();
    assert_eq!(t.vault, 100);
    assert_eq!(
        t.escrow,
        Escrow { seed: 1, maker: MAKER, mint_a: ASSET_A, mint_b: ASSET_B, receive: 50, bump: ESCROW_BUMP }
    );
    assert_eq!(l.balance(MAKER, ASSET_A), 0);
}

#[test]
fn make_collision_changes_nothing() {
    let mut l = funded();
    l.mint_to(MAKER, ASSET_A, 100).unwrap();
    assert_eq!(make(&mut l, MAKER, ASSET_A, ASSET_B, 7, 60, 5), Ok(()));
    assert_eq!(make(&mut l, MAKER, ASSET_A, ASSET_B, 7, 10, 9), Err(EscrowError::Collision));
    assert_eq!(l.balance(MAKER, ASSET_A), 140);
    assert_eq!(l.trade((MAKER, 7)).unwrap().vault, 60);
    assert_eq!(l.trade((MAKER, 7)).unwrap().escrow.receive, 5);
}

#[test]
fn one_maker_runs_trades_under_two_seeds() {
    let mut l = funded();
    assert_eq!(make(&mut l, MAKER, ASSET_A, ASSET_B, 1, 30, 5), Ok(()));
    assert_eq!(make(&mut l, MAKER, ASSET_A, ASSET_B, 2, 70, 6), Ok(()));
    assert_eq!(l.balance(MAKER, ASSET_A), 0);
    assert_eq!(refund(&mut l, MAKER, (MAKER, 1)), Ok(()));
    assert_eq!(l.balance(MAKER, ASSET_A), 30);
    assert_eq!(l.trade((MAKER, 2)).unwrap().vault, 70);
}

#[test]
fn make_without_funds_fails() {
    let mut l = funded();
    assert_eq!(make(&mut l, MAKER, ASSET_A, ASSET_B, 1, 101, 50), Err(EscrowError::InsufficientFunds));
    assert!(l.trade((MAKER, 1)).is_none());
    assert_eq!(l.balance(MAKER, ASSET_A), 100);
    assert_eq!(make(&mut l, STRANGER, ASSET_A, ASSET_B, 1, 1, 1), Err(EscrowError::InsufficientFunds));
}

#[test]
fn make_of_zero_deposit_opens_empty_vault() {
    let mut l = Ledger::new();
    assert_eq!(make(&mut l, MAKER, ASSET_A, ASSET_B, 0, 0, 3), Ok(()));
    assert_eq!(l.trade((MAKER, 0)).unwrap().vault, 0);
}

#[test]
fn refund_by_stranger_is_unauthorized() {
    let mut l = funded();
    make(&mut l, MAKER, ASSET_A, ASSET_B, 1, 100, 50).unwrap();
    assert_eq!(refund(&mut l, STRANGER, (MAKER, 1)), Err(EscrowError::Authorization));
    assert_eq!(refund(&mut l, TAKER, (MAKER, 1)), Err(EscrowError::Authorization));
    assert_eq!(l.trade((MAKER, 1)).unwrap().vault, 100);
    assert_eq!(l.balance(MAKER, ASSET_A), 0);
}

#[test]
fn scenario_take_settles_trade() {
    let mut l = funded();
    make(&mut l, MAKER, ASSET_A, ASSET_B, 1, 100, 50).unwrap();
    let maker_b = l.balance(MAKER, ASSET_B);
    let taker_a = l.balance(TAKER, ASSET_A);
    assert_eq!(take(&mut l, TAKER, (MAKER, 1)), Ok(()));
    assert_eq!(l.balance(MAKER, ASSET_B), maker_b + 50);
    assert_eq!(l.balance(TAKER, ASSET_A), taker_a + 100);
    assert_eq!(l.balance(TAKER, ASSET_B), 30);
    assert!(l.trade((MAKER, 1)).is_none());
}

#[test]
fn scenario_refund_then_take_fails() {
    let mut l = funded();
    make(&mut l, MAKER, ASSET_A, ASSET_B, 1, 100, 50).unwrap();
    assert_eq!(refund(&mut l, MAKER, (MAKER, 1)), Ok(()));
    assert_eq!(l.balance(MAKER, ASSET_A), 100);
    assert!(l.trade((MAKER, 1)).is_none());
    assert_eq!(take(&mut l, TAKER, (MAKER, 1)), Err(EscrowError::NotFound));
    assert_eq!(l.balance(TAKER, ASSET_B), 80);
    assert_eq!(l.balance(TAKER, ASSET_A), 0);
}

#[test]
fn race_take_first_then_refund_not_found() {
    let mut l = funded();
    make(&mut l, MAKER, ASSET_A, ASSET_B, 1, 100, 50).unwrap();
    assert_eq!(take(&mut l, TAKER, (MAKER, 1)), Ok(()));
    assert_eq!(refund(&mut l, MAKER, (MAKER, 1)), Err(EscrowError::NotFound));
    assert_eq!(l.balance(MAKER, ASSET_A), 0);
}

#[test]
fn race_refund_first_then_take_not_found() {
    let mut l = funded();
    make(&mut l, MAKER, ASSET_A, ASSET_B, 1, 100, 50).unwrap();
    assert_eq!(refund(&mut l, MAKER, (MAKER, 1)), Ok(()));
    assert_eq!(take(&mut l, TAKER, (MAKER, 1)), Err(EscrowError::NotFound));
    assert_eq!(refund(&mut l, MAKER, (MAKER, 1)), Err(EscrowError::NotFound));
}

#[test]
fn take_of_unknown_trade_not_found() {
    let mut l = funded();
    assert_eq!(take(&mut l, TAKER, (MAKER, 9)), Err(EscrowError::NotFound));
    assert_eq!(refund(&mut l, MAKER, (MAKER, 9)), Err(EscrowError::NotFound));
}

#[test]
fn take_without_funds_changes_nothing() {
    let mut l = funded();
    make(&mut l, MAKER, ASSET_A, ASSET_B, 1, 100, 81).unwrap();
    assert_eq!(take(&mut l, TAKER, (MAKER, 1)), Err(EscrowError::InsufficientFunds));
    assert_eq!(l.balance(TAKER, ASSET_B), 80);
    assert_eq!(l.balance(MAKER, ASSET_B), 0);
    assert_eq!(l.trade((MAKER, 1)).unwrap().vault, 100);
}

#[test]
fn take_succeeds_when_maker_holds_most_of_requested_asset() {
    let mut l = funded();
    assert_eq!(l.mint_to(MAKER, ASSET_B, u64::MAX), Err(EscrowError::Overflow));
    assert_eq!(l.mint_to(MAKER, ASSET_B, u64::MAX - 80), Ok(()));
    make(&mut l, MAKER, ASSET_A, ASSET_B, 1, 100, 50).unwrap();
    assert_eq!(take(&mut l, TAKER, (MAKER, 1)), Ok(()));
    assert_eq!(l.balance(MAKER, ASSET_B), u64::MAX - 30);
    assert_eq!(l.balance(TAKER, ASSET_B), 30);
    assert_eq!(l.balance(TAKER, ASSET_A), 100);
}

#[test]
fn vault_counts_toward_supply_and_refund_succeeds() {
    let mut l = funded();
    make(&mut l, MAKER, ASSET_A, ASSET_B, 1, 100, 50).unwrap();
    assert_eq!(l.mint_to(MAKER, ASSET_A, u64::MAX - 99), Err(EscrowError::Overflow));
    assert_eq!(l.mint_to(STRANGER, ASSET_A, u64::MAX - 100), Ok(()));
    assert_eq!(l.mint_to(MAKER, ASSET_A, 1), Err(EscrowError::Overflow));
    assert_eq!(refund(&mut l, MAKER, (MAKER, 1)), Ok(()));
    assert_eq!(l.balance(MAKER, ASSET_A), 100);
    assert!(l.trade((MAKER, 1)).is_none());
}

#[test]
fn take_succeeds_when_taker_holds_most_of_offered_asset() {
    let mut l = funded();
    l.mint_to(TAKER, ASSET_A, u64::MAX - 100).unwrap();
    make(&mut l, MAKER, ASSET_A, ASSET_B, 1, 100, 50).unwrap();
    assert_eq!(take(&mut l, TAKER, (MAKER, 1)), Ok(()));
    assert_eq!(l.balance(TAKER, ASSET_A), u64::MAX);
    assert_eq!(l.balance(MAKER, ASSET_B), 50);
}

#[test]
fn mint_to_overflow_is_rejected() {
    let mut l = Ledger::new();
    assert_eq!(l.mint_to(MAKER, ASSET_A, u64::MAX), Ok(()));
    assert_eq!(l.mint_to(MAKER, ASSET_A, 1), Err(EscrowError::Overflow));
    assert_eq!(l.balance(MAKER, ASSET_A), u64::MAX);
}

#[test]
fn maker_takes_own_trade_of_one_asset() {
    let mut l = Ledger::new();
    l.mint_to(MAKER, ASSET_A, 100).unwrap();
    make(&mut l, MAKER, ASSET_A, ASSET_A, 4, 60, 30).unwrap();
    assert_eq!(take(&mut l, MAKER, (MAKER, 4)), Ok(()));
    assert_eq!(l.balance(MAKER, ASSET_A), 100);
}

#[test]
fn taker_of_same_asset_pays_then_receives() {
    let mut l = Ledger::new();
    l.mint_to(MAKER, ASSET_A, 100).unwrap();
    l.mint_to(TAKER, ASSET_A, 40).unwrap();
    make(&mut l, MAKER, ASSET_A, ASSET_A, 4, 60, 30).unwrap();
    assert_eq!(take(&mut l, TAKER, (MAKER, 4)), Ok(()));
    assert_eq!(l.balance(MAKER, ASSET_A), 70);
    assert_eq!(l.balance(TAKER, ASSET_A), 70);
}

#[test]
fn derived_address_is_maker_and_seed() {
    assert_eq!(derive_escrow_address(MAKER, 5), ((MAKER, 5), ESCROW_BUMP));
    assert_ne!(derive_escrow_address(MAKER, 5).0, derive_escrow_address(TAKER, 5).0);
}
