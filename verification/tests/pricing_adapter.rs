use onchain_contracts::pricing::{PriceData, PricingAdapterContract, PricingAdapterError};

const PRICE: i128 = 10_000_000; // $1.00 scaled by 10^7
const DECIMALS: u32 = 7;
const ADMIN: u64 = 1;
const ASSET: u64 = 2;

fn setup() -> PricingAdapterContract {
    let mut c = PricingAdapterContract::new();
    c.initialize(ADMIN).unwrap();
    c
}

#[test]
fn test_initialization() {
    let mut c = PricingAdapterContract::new();
    c.initialize(ADMIN).unwrap();
    let res = c.initialize(ADMIN);
    assert!(res.is_err());
    assert_eq!(res, Err(PricingAdapterError::AlreadyInitialized));
}

#[test]
fn test_set_and_get_price() {
    let mut c = setup();
    let price: i128 = 10_000_000;
    let asset_decimals: u32 = 7;
    c.set_price(ADMIN, ASSET, price, asset_decimals, 0).unwrap();
    assert_eq!(c.get_price(ASSET), Ok(price));
    assert_eq!(c.get_asset_decimals(ASSET), asset_decimals);
}

#[test]
fn test_normalize_amount_same_decimals() {
    let mut c = setup();
    c.set_price(ADMIN, ASSET, 10_000_000, 7, 0).unwrap();
    let amount: i128 = 5_000_000;
    assert_eq!(c.normalize_amount(ASSET, amount), Ok(5_000_000));
}

#[test]
fn test_normalize_amount_different_decimals() {
    let mut c = setup();
    let eth_price: i128 = 3000 * 10_000_000;
    let eth_decimals: u32 = 18;
    c.set_price(ADMIN, ASSET, eth_price, eth_decimals, 0).unwrap();
    let amount: i128 = 2 * 1_000_000_000_000_000_000;
    let expected: i128 = 6000 * 10_000_000;
    assert_eq!(c.normalize_amount(ASSET, amount), Ok(expected));
}

#[test]
fn test_price_timestamp_stored_on_set_price() {
    let mut c = setup();
    c.set_price(ADMIN, ASSET, PRICE, DECIMALS, 5_000).unwrap();
    let data = c.get_price_data(ASSET, 5_000).unwrap();
    assert_eq!(data.timestamp, 5_000);
}

#[test]
fn test_price_timestamp_updated_on_subsequent_set_price() {
    let mut c = setup();
    c.set_price(ADMIN, ASSET, PRICE, DECIMALS, 1_000).unwrap();
    c.set_price(ADMIN, ASSET, PRICE, DECIMALS, 2_500).unwrap();
    let data = c.get_price_data(ASSET, 2_500).unwrap();
    assert_eq!(data.timestamp, 2_500);
}

#[test]
fn test_get_safe_price_fresh() {
    let mut c = setup();
    c.set_price(ADMIN, ASSET, PRICE, DECIMALS, 1_000).unwrap();
    c.set_staleness_window(ADMIN, ASSET, 60).unwrap();
    assert_eq!(c.get_safe_price(ASSET, 1_050), Ok(PRICE));
}

#[test]
fn test_get_safe_price_at_exact_boundary_is_fresh() {
    let mut c = setup();
    c.set_price(ADMIN, ASSET, PRICE, DECIMALS, 1_000).unwrap();
    c.set_staleness_window(ADMIN, ASSET, 60).unwrap();
    assert_eq!(c.get_safe_price(ASSET, 1_060), Ok(PRICE));
}

#[test]
fn test_get_safe_price_one_second_past_boundary_is_stale() {
    let mut c = setup();
    c.set_price(ADMIN, ASSET, PRICE, DECIMALS, 1_000).unwrap();
    c.set_staleness_window(ADMIN, ASSET, 60).unwrap();
    assert_eq!(c.get_safe_price(ASSET, 1_061), Err(PricingAdapterError::PriceStale));
}

#[test]
fn test_get_safe_price_stale_rejected() {
    let mut c = setup();
    c.set_price(ADMIN, ASSET, PRICE, DECIMALS, 0).unwrap();
    c.set_staleness_window(ADMIN, ASSET, 60).unwrap();
    assert_eq!(c.get_safe_price(ASSET, 200), Err(PricingAdapterError::PriceStale));
}

#[test]
fn test_zero_staleness_window_never_stale() {
    let mut c = setup();
    c.set_price(ADMIN, ASSET, PRICE, DECIMALS, 0).unwrap();
    c.set_staleness_window(ADMIN, ASSET, 0).unwrap();
    assert_eq!(c.get_safe_price(ASSET, u64::MAX / 2), Ok(PRICE));
}

#[test]
fn test_get_price_ignores_staleness() {
    let mut c = setup();
    c.set_price(ADMIN, ASSET, PRICE, DECIMALS, 0).unwrap();
    c.set_staleness_window(ADMIN, ASSET, 60).unwrap();
    // Nothing about the time enters get_price.
    assert_eq!(c.get_safe_price(ASSET, 9_999), Err(PricingAdapterError::PriceStale));
    assert_eq!(c.get_price(ASSET), Ok(PRICE));
}

#[test]
fn test_invalidate_price_blocks_safe_price() {
    let mut c = setup();
    c.set_price(ADMIN, ASSET, PRICE, DECIMALS, 1_000).unwrap();
    c.invalidate_price(ADMIN, ASSET).unwrap();
    assert_eq!(c.get_safe_price(ASSET, 1_000), Err(PricingAdapterError::PriceInvalidated));
}

#[test]
fn test_invalidation_cleared_by_new_set_price() {
    let mut c = setup();
    c.set_price(ADMIN, ASSET, PRICE, DECIMALS, 1_000).unwrap();
    c.invalidate_price(ADMIN, ASSET).unwrap();
    c.set_price(ADMIN, ASSET, PRICE, DECIMALS, 1_100).unwrap();
    assert_eq!(c.get_safe_price(ASSET, 1_100), Ok(PRICE));
}

#[test]
fn test_invalidate_non_admin_fails() {
    let mut c = setup();
    c.set_price(ADMIN, ASSET, PRICE, DECIMALS, 1_000).unwrap();
    let non_admin = 99;
    assert_eq!(c.invalidate_price(non_admin, ASSET), Err(PricingAdapterError::Unauthorized));
}

#[test]
fn test_invalidate_nonexistent_price_fails() {
    let mut c = setup();
    let unknown_asset = 77;
    assert_eq!(c.invalidate_price(ADMIN, unknown_asset), Err(PricingAdapterError::PriceNotFound));
}

#[test]
fn test_invalidation_does_not_affect_get_price() {
    let mut c = setup();
    c.set_price(ADMIN, ASSET, PRICE, DECIMALS, 1_000).unwrap();
    c.invalidate_price(ADMIN, ASSET).unwrap();
    assert_eq!(c.get_price(ASSET), Ok(PRICE));
}

#[test]
fn test_get_price_data_fresh_and_valid() {
    let mut c = setup();
    c.set_price(ADMIN, ASSET, PRICE, DECIMALS, 1_000).unwrap();
    c.set_staleness_window(ADMIN, ASSET, 120).unwrap();
    let data = c.get_price_data(ASSET, 1_050).unwrap();
    assert_eq!(
        data,
        PriceData {
            price: PRICE,
            timestamp: 1_000,
            staleness_window: 120,
            is_invalidated: false,
            is_stale: false,
        }
    );
}

#[test]
fn test_get_price_data_shows_stale_flag() {
    let mut c = setup();
    c.set_price(ADMIN, ASSET, PRICE, DECIMALS, 1_000).unwrap();
    c.set_staleness_window(ADMIN, ASSET, 60).unwrap();
    let data = c.get_price_data(ASSET, 1_100).unwrap();
    assert!(data.is_stale);
    assert!(!data.is_invalidated);
}

#[test]
fn test_get_price_data_shows_invalidated_flag() {
    let mut c = setup();
    c.set_price(ADMIN, ASSET, PRICE, DECIMALS, 1_000).unwrap();
    c.invalidate_price(ADMIN, ASSET).unwrap();
    let data = c.get_price_data(ASSET, 1_000).unwrap();
    assert!(data.is_invalidated);
    assert!(!data.is_stale);
}

#[test]
fn test_get_price_data_no_staleness_window_is_never_stale() {
    let mut c = setup();
    c.set_price(ADMIN, ASSET, PRICE, DECIMALS, 0).unwrap();
    let data = c.get_price_data(ASSET, u64::MAX / 2).unwrap();
    assert_eq!(data.staleness_window, 0);
    assert!(!data.is_stale);
}

#[test]
fn test_set_staleness_window_non_admin_fails() {
    let mut c = setup();
    let non_admin = 99;
    assert_eq!(
        c.set_staleness_window(non_admin, ASSET, 60),
        Err(PricingAdapterError::Unauthorized)
    );
}

#[test]
fn test_staleness_window_can_be_updated() {
    let mut c = setup();
    c.set_price(ADMIN, ASSET, PRICE, DECIMALS, 1_000).unwrap();
    c.set_staleness_window(ADMIN, ASSET, 30).unwrap();
    assert_eq!(c.get_safe_price(ASSET, 1_040), Err(PricingAdapterError::PriceStale));
    c.set_staleness_window(ADMIN, ASSET, 60).unwrap();
    assert_eq!(c.get_safe_price(ASSET, 1_040), Ok(PRICE));
}

// ── Further cases ─────────────────────────────────────────────────────────────

#[test]
fn pricing_calls_before_initialization_fail() {
    let mut c = PricingAdapterContract::new();
    assert_eq!(c.set_price(ADMIN, ASSET, PRICE, DECIMALS, 0), Err(PricingAdapterError::NotInitialized));
    assert_eq!(c.set_staleness_window(ADMIN, ASSET, 1), Err(PricingAdapterError::NotInitialized));
    assert_eq!(c.invalidate_price(ADMIN, ASSET), Err(PricingAdapterError::NotInitialized));
}

#[test]
fn pricing_rejects_non_positive_price() {
    let mut c = setup();
    assert_eq!(c.set_price(ADMIN, ASSET, 0, DECIMALS, 0), Err(PricingAdapterError::InvalidPrice));
    assert_eq!(c.set_price(ADMIN, ASSET, -5, DECIMALS, 0), Err(PricingAdapterError::InvalidPrice));
    assert_eq!(c.get_price(ASSET), Err(PricingAdapterError::PriceNotFound));
}

#[test]
fn pricing_non_admin_cannot_set_price() {
    let mut c = setup();
    assert_eq!(c.set_price(5, ASSET, PRICE, DECIMALS, 0), Err(PricingAdapterError::Unauthorized));
    assert_eq!(c.get_price(ASSET), Err(PricingAdapterError::PriceNotFound));
}

#[test]
fn pricing_defaults_for_unknown_asset() {
    let c = setup();
    assert_eq!(c.get_asset_decimals(ASSET), 7);
    assert_eq!(c.get_price(ASSET), Err(PricingAdapterError::PriceNotFound));
    assert_eq!(c.get_safe_price(ASSET, 10), Err(PricingAdapterError::PriceNotFound));
    assert_eq!(c.get_price_data(ASSET, 10), Err(PricingAdapterError::PriceNotFound));
    assert_eq!(c.normalize_amount(ASSET, 10), Err(PricingAdapterError::PriceNotFound));
}

#[test]
fn pricing_normalize_zero_amount_needs_no_price() {
    let c = setup();
    assert_eq!(c.normalize_amount(ASSET, 0), Ok(0));
}

#[test]
fn pricing_normalize_truncates_toward_zero() {
    let mut c = setup();
    c.set_price(ADMIN, ASSET, 3, 1, 0).unwrap();
    // 7 * 3 / 10 = 2.1 -> 2 ; -7 * 3 / 10 = -2.1 -> -2
    assert_eq!(c.normalize_amount(ASSET, 7), Ok(2));
    assert_eq!(c.normalize_amount(ASSET, -7), Ok(-2));
}

#[test]
fn pricing_normalize_product_overflow_gives_zero() {
    let mut c = setup();
    c.set_price(ADMIN, ASSET, 2, 0, 0).unwrap();
    assert_eq!(c.normalize_amount(ASSET, i128::MAX), Ok(0));
    assert_eq!(c.normalize_amount(ASSET, 5), Ok(10));
}

#[test]
fn pricing_normalize_too_many_decimals() {
    let mut c = setup();
    c.set_price(ADMIN, ASSET, 1, 38, 0).unwrap();
    assert_eq!(c.normalize_amount(ASSET, 10i128.pow(38)), Ok(1));
    c.set_price(ADMIN, ASSET, 1, 39, 0).unwrap();
    assert_eq!(c.normalize_amount(ASSET, 1), Err(PricingAdapterError::Overflow));
}

#[test]
fn pricing_assets_are_independent() {
    let mut c = setup();
    c.set_price(ADMIN, ASSET, PRICE, DECIMALS, 0).unwrap();
    c.set_price(ADMIN, 3, 2 * PRICE, 18, 0).unwrap();
    c.invalidate_price(ADMIN, 3).unwrap();
    assert_eq!(c.get_safe_price(ASSET, 0), Ok(PRICE));
    assert_eq!(c.get_safe_price(3, 0), Err(PricingAdapterError::PriceInvalidated));
    assert_eq!(c.get_asset_decimals(ASSET), 7);
    assert_eq!(c.get_asset_decimals(3), 18);
}

#[test]
fn pricing_clock_before_timestamp_counts_as_age_zero() {
    let mut c = setup();
    c.set_price(ADMIN, ASSET, PRICE, DECIMALS, 1_000).unwrap();
    c.set_staleness_window(ADMIN, ASSET, 1).unwrap();
    assert_eq!(c.get_safe_price(ASSET, 10), Ok(PRICE));
}
