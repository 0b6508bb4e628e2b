use onchain_contracts::transfer::TokenTransfer;
use onchain_contracts::vault::{
    DepositReceipt, ProviderCall, YieldError, YieldHarvestedEvent, YieldVaultContract,
};

const ADMIN: u64 = 1;
const ASSET: u64 = 2;
const USER: u64 = 10;
const MOCK_PROVIDER: u64 = 100;
const MOCK_NAME: u64 = 500;

fn request_id() -> [u8; 32] {
    [0; 32]
}

fn setup() -> YieldVaultContract {
    let mut v = YieldVaultContract::new();
    v.initialize(ADMIN, ASSET).unwrap();
    v.register_provider(MOCK_NAME, MOCK_PROVIDER, 1).unwrap();
    v
}

#[test]
fn test_deposit_idempotency() {
    let mut v = setup();
    let deposit_amount = 1000i128;
    let result = v.deposit(deposit_amount, USER, request_id(), USER).map(|r| r.amount);
    assert_eq!(result, Ok(deposit_amount));
    let result = v.deposit(deposit_amount, USER, request_id(), USER);
    assert_eq!(result, Err(YieldError::AlreadyExecuted));
}

#[test]
fn test_withdraw_idempotency() {
    let mut v = setup();
    let deposit_amount = 1000i128;
    v.deposit(deposit_amount, USER, [1; 32], USER).unwrap();
    let withdraw_amount = 500i128;
    let result = v.withdraw(withdraw_amount, USER, request_id(), USER).map(|r| r.0);
    assert_eq!(result, Ok(withdraw_amount));
    let result = v.withdraw(withdraw_amount, USER, request_id(), USER);
    assert_eq!(result, Err(YieldError::AlreadyExecuted));
}

// ── Further cases ─────────────────────────────────────────────────────────────

#[test]
fn vault_deposit_effects() {
    let mut v = setup();
    let r = v.deposit(250, USER, [3; 32], 7).unwrap();
    assert_eq!(
        r,
        DepositReceipt {
            amount: 250,
            provider_id: 0,
            transfer: TokenTransfer::In { token: ASSET, from: 7, amount: 250 },
            provider_deposit: ProviderCall::Deposit { provider: MOCK_PROVIDER, amount: 250 },
        }
    );
    assert_eq!(v.balance_of(USER), 250);
    assert_eq!(v.balance_of(7), 0);
    assert_eq!(v.get_total_aum(), 250);
    assert_eq!(v.get_provider(0).unwrap().total_deposited, 250);
}

#[test]
fn vault_deposit_routes_to_highest_priority_active_provider() {
    let mut v = setup(); // provider 0, priority 1
    v.register_provider(MOCK_NAME, 101, 5).unwrap(); // provider 1
    v.register_provider(MOCK_NAME, 102, 5).unwrap(); // provider 2, same priority, later
    v.register_provider(MOCK_NAME, 103, 3).unwrap(); // provider 3
    let r = v.deposit(10, USER, [1; 32], USER).unwrap();
    assert_eq!(r.provider_id, 1);
    assert_eq!(r.provider_deposit, ProviderCall::Deposit { provider: 101, amount: 10 });
}

#[test]
fn vault_deposit_with_zero_priorities_goes_to_first_active() {
    let mut v = YieldVaultContract::new();
    v.initialize(ADMIN, ASSET).unwrap();
    v.register_provider(MOCK_NAME, 100, 0).unwrap();
    v.register_provider(MOCK_NAME, 101, 0).unwrap();
    assert_eq!(v.deposit(10, USER, [1; 32], USER).unwrap().provider_id, 0);
}

#[test]
fn vault_deposit_errors() {
    let mut v = YieldVaultContract::new();
    assert_eq!(v.deposit(10, USER, [1; 32], USER), Err(YieldError::NotInitialized));
    v.initialize(ADMIN, ASSET).unwrap();
    assert_eq!(v.initialize(ADMIN, ASSET), Err(YieldError::AlreadyInitialized));
    assert_eq!(v.deposit(0, USER, [1; 32], USER), Err(YieldError::InvalidAmount));
    assert_eq!(v.deposit(10, USER, [1; 32], USER), Err(YieldError::NoProvidersAvailable));
    v.register_provider(MOCK_NAME, MOCK_PROVIDER, 1).unwrap();
    // The failed attempts did not use up the request id.
    assert!(v.deposit(10, USER, [1; 32], USER).is_ok());
    assert_eq!(v.deposit(i128::MAX, USER, [2; 32], USER), Err(YieldError::Overflow));
    assert_eq!(v.get_total_aum(), 10);
}

#[test]
fn vault_register_before_init_fails() {
    let mut v = YieldVaultContract::new();
    assert_eq!(v.register_provider(MOCK_NAME, MOCK_PROVIDER, 1), Err(YieldError::NotInitialized));
    assert_eq!(v.get_provider(0), Err(YieldError::ProviderNotFound));
}

#[test]
fn vault_withdraw_drains_providers_in_order() {
    let mut v = setup(); // provider 0, priority 1
    v.deposit(300, USER, [1; 32], USER).unwrap(); // -> provider 0
    v.register_provider(MOCK_NAME, 101, 9).unwrap(); // provider 1
    v.deposit(500, USER, [2; 32], USER).unwrap(); // -> provider 1
    let (withdrawn, calls) = v.withdraw(400, USER, [3; 32], 42).unwrap();
    assert_eq!(withdrawn, 400);
    assert_eq!(
        calls,
        vec![
            ProviderCall::Withdraw { provider: MOCK_PROVIDER, to: 42, amount: 300 },
            ProviderCall::Withdraw { provider: 101, to: 42, amount: 100 },
        ]
    );
    assert_eq!(v.balance_of(USER), 400);
    assert_eq!(v.get_total_aum(), 400);
    assert_eq!(v.get_provider(0).unwrap().total_withdrawn, 300);
    assert_eq!(v.get_provider(1).unwrap().total_withdrawn, 100);
    // The rest comes from provider 1 only.
    let (w, calls) = v.withdraw(400, USER, [4; 32], 42).unwrap();
    assert_eq!(w, 400);
    assert_eq!(calls, vec![ProviderCall::Withdraw { provider: 101, to: 42, amount: 400 }]);
    assert_eq!(v.balance_of(USER), 0);
    assert_eq!(v.get_total_aum(), 0);
}

#[test]
fn vault_withdraw_errors() {
    let mut v = setup();
    v.deposit(100, USER, [1; 32], USER).unwrap();
    assert_eq!(v.withdraw(0, USER, [2; 32], USER), Err(YieldError::InvalidAmount));
    assert_eq!(v.withdraw(101, USER, [2; 32], USER), Err(YieldError::InsufficientBalance));
    assert_eq!(v.withdraw(1, 999, [2; 32], USER), Err(YieldError::InsufficientBalance));
    assert_eq!(v.withdraw(1, USER, [1; 32], USER), Err(YieldError::AlreadyExecuted));
    assert_eq!(v.balance_of(USER), 100);
}

#[test]
fn vault_balances_of_users_are_separate() {
    let mut v = setup();
    v.deposit(100, 10, [1; 32], 10).unwrap();
    v.deposit(50, 11, [2; 32], 11).unwrap();
    v.withdraw(30, 10, [3; 32], 10).unwrap();
    assert_eq!(v.balance_of(10), 70);
    assert_eq!(v.balance_of(11), 50);
    assert_eq!(v.get_total_aum(), 120);
}

#[test]
fn vault_harvest_yield() {
    let mut v = setup();
    v.deposit(1000, USER, [1; 32], USER).unwrap();
    v.withdraw(200, USER, [2; 32], USER).unwrap();
    assert_eq!(v.harvest_target(0), Ok(MOCK_PROVIDER));
    // The provider now reports 850 for the vault: 850 - 1000 + 200 = 50.
    assert_eq!(
        v.harvest_yield(0, 850),
        Ok((50, YieldHarvestedEvent { provider_id: 0, yield_earned: 50 }))
    );
    assert_eq!(v.get_total_yield_harvested(), 50);
    assert_eq!(v.get_provider(0).unwrap().total_yield_earned, 50);
    // A loss is reported but not recorded.
    assert_eq!(v.harvest_yield(0, 700).map(|r| r.0), Ok(-100));
    assert_eq!(v.get_total_yield_harvested(), 50);
}

#[test]
fn vault_harvest_errors() {
    let mut v = YieldVaultContract::new();
    assert_eq!(v.harvest_target(0), Err(YieldError::NotInitialized));
    assert_eq!(v.harvest_yield(0, 1), Err(YieldError::NotInitialized));
    v.initialize(ADMIN, ASSET).unwrap();
    assert_eq!(v.harvest_target(0), Err(YieldError::ProviderNotFound));
    assert_eq!(v.harvest_yield(0, 1), Err(YieldError::ProviderNotFound));
    v.register_provider(MOCK_NAME, MOCK_PROVIDER, 1).unwrap();
    v.deposit(1, USER, [1; 32], USER).unwrap();
    assert_eq!(v.harvest_yield(0, i128::MIN), Err(YieldError::Overflow));
}

#[test]
fn vault_register_returns_sequential_ids() {
    let mut v = YieldVaultContract::new();
    v.initialize(ADMIN, ASSET).unwrap();
    assert_eq!(v.register_provider(1, 100, 3), Ok(0));
    assert_eq!(v.register_provider(2, 101, 4), Ok(1));
    let p = v.get_provider(1).unwrap();
    assert_eq!((p.id, p.name, p.address, p.priority, p.is_active), (1, 2, 101, 4, true));
    assert_eq!((p.total_deposited, p.total_withdrawn, p.total_yield_earned), (0, 0, 0));
}
