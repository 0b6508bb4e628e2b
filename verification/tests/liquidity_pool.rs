use onchain_contracts::amm::{AmmError, LiquidityPoolContract};
use onchain_contracts::transfer::TokenTransfer;

const ADMIN: u64 = 1;
const T0: u64 = 20;
const T1: u64 = 21;
const LP: u64 = 10;
const TRADER: u64 = 11;
const YEAR: u64 = 31_536_000;

fn setup() -> LiquidityPoolContract {
    let mut p = LiquidityPoolContract::new();
    p.initialize(ADMIN, T0, T1).unwrap();
    p
}

#[test]
fn amm_isqrt_values() {
    assert_eq!(LiquidityPoolContract::isqrt(0), 0);
    assert_eq!(LiquidityPoolContract::isqrt(1), 1);
    assert_eq!(LiquidityPoolContract::isqrt(15), 3);
    assert_eq!(LiquidityPoolContract::isqrt(16), 4);
    assert_eq!(LiquidityPoolContract::isqrt(4_000_000), 2000);
    assert_eq!(LiquidityPoolContract::isqrt(u128::MAX - 1), u64::MAX as u128);
    assert_eq!(LiquidityPoolContract::isqrt(u128::MAX), u64::MAX as u128);
}

#[test]
fn amm_first_deposit_mints_geometric_mean() {
    let mut p = setup();
    let r = p.add_liquidity(1000, 4000, 0, LP, 0);
    assert_eq!(
        r,
        Ok((
            2000,
            TokenTransfer::In { token: T0, from: LP, amount: 1000 },
            TokenTransfer::In { token: T1, from: LP, amount: 4000 },
        ))
    );
    assert_eq!(p.lp_balance(LP), 2000);
    assert_eq!(p.get_reserves(), (1000, 4000));
    assert_eq!(p.get_accrued_fees(), (0, 0));
}

#[test]
fn amm_later_deposit_and_fee_accrual() {
    let mut p = setup();
    p.add_liquidity(1000, 4000, 0, LP, 0).unwrap();
    // min(100 * 2000 / 1001, 400 * 2000 / 4001) = min(199, 199)
    assert_eq!(p.add_liquidity(100, 400, 0, LP, YEAR).map(|r| r.0), Ok(199));
    assert_eq!(p.lp_balance(LP), 2199);
    assert_eq!(p.get_reserves(), (1100, 4400));
    // One year at 0.05% on the new reserves: 1100 -> 0, 4400 -> 2.
    assert_eq!(p.get_accrued_fees(), (0, 2));
}

#[test]
fn amm_swap_constant_product() {
    let mut p = setup();
    p.add_liquidity(1100, 4400, 0, LP, 0).unwrap();
    // 1000 after the fee is 997; 4400 * 997 / (1100 + 997) = 2091
    let r = p.swap_exact_in(1000, 2091, TRADER);
    assert_eq!(
        r,
        Ok((
            2091,
            TokenTransfer::In { token: T0, from: TRADER, amount: 1000 },
            TokenTransfer::Out { token: T1, to: TRADER, amount: 2091 },
        ))
    );
    assert_eq!(p.get_reserves(), (2100, 2309));
    assert!(2100 * 2309 >= 1100 * 4400);
}

#[test]
fn amm_remove_liquidity_proportional() {
    let mut p = setup();
    p.add_liquidity(1000, 4000, 0, LP, 0).unwrap();
    // min(1000 * 2000 / 1001, 4000 * 2000 / 4001) = 1998 shares
    assert_eq!(p.add_liquidity(1000, 4000, 0, TRADER, 0).map(|r| r.0), Ok(1998));
    let supply_share = p.lp_balance(LP);
    let r = p.remove_liquidity(supply_share, 0, 0, LP).unwrap();
    assert_eq!(r.0, (1000, 4002));
    assert_eq!(r.1, TokenTransfer::Out { token: T0, to: LP, amount: 1000 });
    assert_eq!(r.2, TokenTransfer::Out { token: T1, to: LP, amount: 4002 });
    assert_eq!(p.lp_balance(LP), 0);
}

#[test]
fn amm_remove_all_liquidity_empties_pool() {
    let mut p = setup();
    p.add_liquidity(1000, 4000, 0, LP, 0).unwrap();
    assert_eq!(p.remove_liquidity(2000, 1000, 4000, LP).map(|r| r.0), Ok((1000, 4000)));
    assert_eq!(p.get_reserves(), (0, 0));
}

#[test]
fn amm_slippage_is_refused() {
    let mut p = setup();
    assert_eq!(p.add_liquidity(1000, 4000, 2001, LP, 0), Err(AmmError::SlippageExceeded));
    p.add_liquidity(1000, 4000, 0, LP, 0).unwrap();
    assert_eq!(p.swap_exact_in(100, 10_000, TRADER), Err(AmmError::SlippageExceeded));
    assert_eq!(p.remove_liquidity(100, 1000, 0, LP), Err(AmmError::SlippageExceeded));
    assert_eq!(p.get_reserves(), (1000, 4000));
}

#[test]
fn amm_errors() {
    let mut p = LiquidityPoolContract::new();
    assert_eq!(p.add_liquidity(1, 1, 0, LP, 0), Err(AmmError::NotInitialized));
    assert_eq!(p.swap_exact_in(10, 0, TRADER), Err(AmmError::NotInitialized));
    p.initialize(ADMIN, T0, T1).unwrap();
    assert_eq!(p.initialize(ADMIN, T0, T1), Err(AmmError::AlreadyInitialized));
    assert_eq!(p.add_liquidity(0, 1, 0, LP, 0), Err(AmmError::InvalidAmount));
    assert_eq!(p.remove_liquidity(0, 0, 0, LP), Err(AmmError::InvalidAmount));
    assert_eq!(p.swap_exact_in(0, 0, TRADER), Err(AmmError::InvalidAmount));
    assert_eq!(p.remove_liquidity(1, 0, 0, LP), Err(AmmError::InsufficientBalance));
    // A single unit has no value after the fee against an empty reserve.
    assert_eq!(p.swap_exact_in(1, 0, TRADER), Err(AmmError::DivisionByZero));
    // The product of the first deposit must stay below u128::MAX.
    let big: i128 = 1 << 64;
    assert_eq!(p.add_liquidity(big, big, 0, LP, 0), Err(AmmError::Overflow));
}

#[test]
fn amm_fee_clock_going_backwards_is_refused() {
    let mut p = setup();
    p.add_liquidity(10, 10, 0, LP, 100).unwrap();
    assert_eq!(p.add_liquidity(10, 10, 0, LP, 50), Err(AmmError::Overflow));
    assert_eq!(p.lp_balance(LP), 10);
}
