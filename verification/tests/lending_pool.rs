use onchain_contracts::lending::{AaveLendingPoolContract, InterestAccruedEvent, LendingError};
use onchain_contracts::transfer::TokenTransfer;

const ADMIN: u64 = 1;
const ASSET: u64 = 5;
const ALICE: u64 = 10;
const BOB: u64 = 11;

fn setup() -> AaveLendingPoolContract {
    let mut p = AaveLendingPoolContract::new();
    p.initialize(ADMIN).unwrap();
    p
}

#[test]
fn lending_first_deposit_mints_one_to_one() {
    let mut p = setup();
    let r = p.deposit(ASSET, 1000, ALICE, ALICE, 7);
    assert_eq!(r, Ok((1000, TokenTransfer::In { token: ASSET, from: ALICE, amount: 1000 })));
    assert_eq!(p.balance_of(ALICE, ASSET), 1000);
    assert_eq!(p.get_reserve(ASSET), 1000);
}

#[test]
fn lending_later_deposit_mints_proportionally() {
    let mut p = setup();
    p.deposit(ASSET, 1000, ALICE, ALICE, 0).unwrap();
    // 500 * 1000 / (1000 + 1) = 499
    assert_eq!(p.deposit(ASSET, 500, BOB, ALICE, 1).map(|r| r.0), Ok(499));
    assert_eq!(p.balance_of(BOB, ASSET), 499);
    assert_eq!(p.balance_of(ALICE, ASSET), 1000);
    assert_eq!(p.get_reserve(ASSET), 1500);
}

#[test]
fn lending_withdraw_pays_share_of_reserve() {
    let mut p = setup();
    p.deposit(ASSET, 1000, ALICE, ALICE, 0).unwrap();
    p.deposit(ASSET, 500, BOB, BOB, 0).unwrap();
    // 499 * 1500 / 1499 = 499: no more than deposited.
    let r = p.withdraw(ASSET, 499, 77, BOB);
    assert_eq!(r, Ok((499, TokenTransfer::Out { token: ASSET, to: 77, amount: 499 })));
    assert_eq!(p.balance_of(BOB, ASSET), 0);
    assert_eq!(p.get_reserve(ASSET), 1001);
    // Alice burns everything left and gets the whole reserve.
    assert_eq!(p.withdraw(ASSET, 1000, ALICE, ALICE).map(|r| r.0), Ok(1001));
    assert_eq!(p.get_reserve(ASSET), 0);
}

#[test]
fn lending_errors() {
    let mut p = AaveLendingPoolContract::new();
    assert_eq!(p.deposit(ASSET, 10, ALICE, ALICE, 0), Err(LendingError::NotInitialized));
    p.initialize(ADMIN).unwrap();
    assert_eq!(p.initialize(ADMIN), Err(LendingError::AlreadyInitialized));
    assert_eq!(p.deposit(ASSET, 0, ALICE, ALICE, 0), Err(LendingError::InvalidAmount));
    assert_eq!(p.withdraw(ASSET, -1, ALICE, ALICE), Err(LendingError::InvalidAmount));
    assert_eq!(p.withdraw(ASSET, 1, ALICE, ALICE), Err(LendingError::InsufficientBalance));
    p.deposit(ASSET, 10, ALICE, ALICE, 0).unwrap();
    assert_eq!(p.withdraw(ASSET, 11, ALICE, ALICE), Err(LendingError::InsufficientBalance));
    // Withdrawals burn the invoker's a-tokens, not another account's.
    assert_eq!(p.withdraw(ASSET, 5, ALICE, BOB), Err(LendingError::InsufficientBalance));
}

#[test]
fn lending_overflow_is_refused() {
    let mut p = setup();
    p.deposit(ASSET, i128::MAX, ALICE, ALICE, 0).unwrap();
    assert_eq!(p.deposit(ASSET, 1, BOB, BOB, 0), Err(LendingError::Overflow));
    assert_eq!(p.balance_of(BOB, ASSET), 0);
    assert_eq!(p.get_reserve(ASSET), i128::MAX);
}

#[test]
fn lending_assets_are_separate() {
    let mut p = setup();
    p.deposit(ASSET, 100, ALICE, ALICE, 0).unwrap();
    p.deposit(6, 40, ALICE, ALICE, 0).unwrap();
    assert_eq!(p.get_reserve(ASSET), 100);
    assert_eq!(p.get_reserve(6), 40);
    assert_eq!(p.balance_of(ALICE, 6), 40);
}

#[test]
fn lending_variable_rate_without_debt() {
    let mut p = setup();
    assert_eq!(p.get_variable_rate(ASSET), 300);
    p.deposit(ASSET, 100, ALICE, ALICE, 0).unwrap();
    assert_eq!(p.get_variable_rate(ASSET), 300);
}

#[test]
fn lending_interest_accrues_from_the_last_call() {
    let mut p = setup();
    p.deposit(ASSET, 1_000_000_000_000, ALICE, ALICE, 0).unwrap();
    // The first call starts the period and adds nothing.
    assert_eq!(p.accrue_interest(ASSET, 0), Ok((0, None)));
    // A year later 3% of the reserve is added.
    let year: u64 = 31_536_000;
    let ev = InterestAccruedEvent { reserve: 1_030_000_000_000, interest: 30_000_000_000, elapsed: year };
    assert_eq!(p.accrue_interest(ASSET, year), Ok((30_000_000_000, Some(ev))));
    assert_eq!(p.get_reserve(ASSET), 1_030_000_000_000);
    // No time elapsed since: nothing more.
    assert_eq!(p.accrue_interest(ASSET, year), Ok((0, None)));
}
