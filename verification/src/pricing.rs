//! An admin-fed price oracle: prices scaled by 10^7 with per-asset decimals,
//! a freshness window and an explicit invalidation flag.
use std::collections::HashMap;
use vstd::prelude::*;

verus! {

broadcast use vstd::std_specs::hash::group_hash_axioms;

/// Decimals of the base unit in which prices are expressed.
pub const BASE_DECIMALS: u32 = 7;

#[derive(Clone, Copy, Debug, PartialEq, Eq, Structural)]
pub enum PricingAdapterError {
    NotInitialized,
    AlreadyInitialized,
    Unauthorized,
    InvalidPrice,
    PriceNotFound,
    PriceStale,
    PriceInvalidated,
    /// `10^decimals` leaves `i128`; the deployed contract aborts the
    /// invocation in that case.
    Overflow,
}

/// The full price state of an asset, with the validity flags derived at
/// query time.
#[derive(Clone, Copy, Debug, PartialEq, Eq, Structural)]
pub struct PriceData {
    pub price: i128,
    pub timestamp: u64,
    pub staleness_window: u64,
    pub is_invalidated: bool,
    pub is_stale: bool,
}

/// What the adapter records for one asset. Each field holds its default
/// when never set: no price, 7 decimals, timestamp 0, window 0 (no
/// staleness check), not invalidated.
#[derive(Clone, Copy, Debug, PartialEq, Eq, Structural)]
pub struct AssetPriceState {
    pub price: Option<i128>,
    pub decimals: u32,
    pub timestamp: u64,
    pub staleness_window: u64,
    pub invalidated: bool,
}

pub open spec fn default_asset_state() -> AssetPriceState {
    AssetPriceState {
        price: None,
        decimals: BASE_DECIMALS,
        timestamp: 0,
        staleness_window: 0,
        invalidated: false,
    }
}

/// The adapter's observable state: its admin and every asset's record (a
/// total map).
pub struct PricingView {
    pub admin: Option<u64>,
    pub assets: Map<u64, AssetPriceState>,
}

/// Age of a price recorded at `timestamp`, saturating at 0.
pub open spec fn price_age(now: u64, timestamp: u64) -> int {
    if now >= timestamp {
        now - timestamp
    } else {
        0
    }
}

/// A price is stale when a window is configured and the price is older
/// than the window; a price exactly `window` seconds old is still fresh.
pub open spec fn is_stale(s: AssetPriceState, now: u64) -> bool {
    s.staleness_window > 0 && price_age(now, s.timestamp) > s.staleness_window
}

/// The record after `set_price`: the new price, decimals and timestamp,
/// and no invalidation.
pub open spec fn with_price(s: AssetPriceState, price: i128, decimals: u32, now: u64) -> AssetPriceState {
    AssetPriceState { price: Some(price), decimals, timestamp: now, invalidated: false, ..s }
}

/// The record after `set_staleness_window`.
pub open spec fn with_window(s: AssetPriceState, window: u64) -> AssetPriceState {
    AssetPriceState { staleness_window: window, ..s }
}

/// The record after `invalidate_price`.
pub open spec fn invalidated(s: AssetPriceState) -> AssetPriceState {
    AssetPriceState { invalidated: true, ..s }
}

/// An admin update of an asset's record other than a new price.
pub enum PriceChange {
    Window(u64),
    Invalidate,
}

/// The record after `changes`, applied in order.
pub open spec fn apply_changes(s: AssetPriceState, changes: Seq<PriceChange>) -> AssetPriceState
    decreases changes.len(),
{
    if changes.len() == 0 {
        s
    } else {
        let t = apply_changes(s, changes.drop_last());
        match changes.last() {
            PriceChange::Window(w) => with_window(t, w),
            PriceChange::Invalidate => invalidated(t),
        }
    }
}

/// The staleness window after `changes`, starting from `window`.
pub open spec fn last_window(window: u64, changes: Seq<PriceChange>) -> u64
    decreases changes.len(),
{
    if changes.len() == 0 {
        window
    } else {
        match changes.last() {
            PriceChange::Window(w) => w,
            PriceChange::Invalidate => last_window(window, changes.drop_last()),
        }
    }
}

/// What `get_price_data` answers for an asset in state `s` at `now`.
pub open spec fn price_data(s: AssetPriceState, now: u64) -> Result<PriceData, PricingAdapterError> {
    match s.price {
        None => Err(PricingAdapterError::PriceNotFound),
        Some(p) => Ok(
            PriceData {
                price: p,
                timestamp: s.timestamp,
                staleness_window: s.staleness_window,
                is_invalidated: s.invalidated,
                is_stale: is_stale(s, now),
            },
        ),
    }
}

/// What `get_safe_price` answers for an asset in state `s` at `now`.
pub open spec fn safe_price(s: AssetPriceState, now: u64) -> Result<i128, PricingAdapterError> {
    match s.price {
        None => Err(PricingAdapterError::PriceNotFound),
        Some(p) => if s.invalidated {
            Err(PricingAdapterError::PriceInvalidated)
        } else if is_stale(s, now) {
            Err(PricingAdapterError::PriceStale)
        } else {
            Ok(p)
        },
    }
}

/// The error of an admin-only call by `caller`, if any.
pub open spec fn admin_error(v: PricingView, caller: u64) -> Option<PricingAdapterError> {
    match v.admin {
        None => Some(PricingAdapterError::NotInitialized),
        Some(a) => if a != caller {
            Some(PricingAdapterError::Unauthorized)
        } else {
            None
        },
    }
}

/// 10 to the power `d`.
pub open spec fn pow10(d: nat) -> int
    decreases d,
{
    if d == 0 {
        1
    } else {
        10 * pow10((d - 1) as nat)
    }
}

/// Division truncating toward zero, as Rust's integer division does.
pub open spec fn trunc_div(a: int, b: int) -> int {
    if a >= 0 {
        a / b
    } else {
        -((-a) / b)
    }
}

/// `amount` of an asset priced at `price` with `decimals` decimals,
/// expressed in base units; 0 when the product leaves `i128`.
pub open spec fn normalized_amount(amount: int, price: int, decimals: nat) -> int {
    if i128::MIN <= amount * price <= i128::MAX {
        trunc_div(amount * price, pow10(decimals))
    } else {
        0
    }
}

proof fn lemma_pow10_positive_monotone(a: nat, b: nat)
    requires
        a <= b,
    ensures
        1 <= pow10(a) <= pow10(b),
    decreases b,
{
    if a < b {
        lemma_pow10_positive_monotone(a, (b - 1) as nat);
    } else if b > 0 {
        lemma_pow10_positive_monotone(0, (b - 1) as nat);
    }
}

/// `10^d` as an `i128`, `None` when it does not fit.
fn checked_pow10(d: u32) -> (r: Option<i128>)
    ensures
        r is None <==> pow10(d as nat) > i128::MAX,
        r matches Some(v) ==> v == pow10(d as nat) && v >= 1,
{
    proof {
        reveal_with_fuel(pow10, 40);
        assert(pow10(38) == 100000000000000000000000000000000000000int);
        assert(pow10(39) == 1000000000000000000000000000000000000000int);
    }
    if d > 38 {
        proof { lemma_pow10_positive_monotone(39, d as nat); }
        return None;
    }
    proof { lemma_pow10_positive_monotone(d as nat, 38); }
    let mut v: i128 = 1;
    let mut i: u32 = 0;
    while i < d
        invariant
            i <= d <= 38,
            v == pow10(i as nat),
            pow10(d as nat) <= 100000000000000000000000000000000000000int,
        decreases d - i,
    {
        proof { lemma_pow10_positive_monotone((i + 1) as nat, d as nat); }
        v = v * 10;
        i = i + 1;
    }
    proof { lemma_pow10_positive_monotone(0, d as nat); }
    Some(v)
}

/// The pricing adapter contract's state.
pub struct PricingAdapterContract {
    admin: Option<u64>,
    assets: HashMap<u64, AssetPriceState>,
}

impl View for PricingAdapterContract {
    type V = PricingView;

    closed spec fn view(&self) -> PricingView {
        PricingView {
            admin: self.admin,
            assets: Map::new(
                |a: u64| true,
                |a: u64|
                    if self.assets@.contains_key(a) {
                        self.assets@[a]
                    } else {
                        default_asset_state()
                    },
            ),
        }
    }
}

impl PricingAdapterContract {
    pub fn new() -> (p: PricingAdapterContract)
        ensures
            p@.admin is None,
            forall|a: u64| #[trigger] p@.assets[a] == default_asset_state(),
    {
        PricingAdapterContract { admin: None, assets: HashMap::new() }
    }

    fn asset_state(&self, asset: u64) -> (s: AssetPriceState)
        ensures
            s == self@.assets[asset],
    {
        match self.assets.get(&asset) {
            Some(s) => *s,
            None => AssetPriceState {
                price: None,
                decimals: BASE_DECIMALS,
                timestamp: 0,
                staleness_window: 0,
                invalidated: false,
            },
        }
    }

    fn store(&mut self, asset: u64, s: AssetPriceState)
        ensures
            final(self)@ == (PricingView {
                admin: old(self)@.admin,
                assets: old(self)@.assets.insert(asset, s),
            }),
    {
        self.assets.insert(asset, s);
        assert(self@.assets =~= old(self)@.assets.insert(asset, s));
    }

    fn require_admin(&self, caller: u64) -> (r: Result<(), PricingAdapterError>)
        ensures
            r matches Err(e) ==> admin_error(self@, caller) == Some(e),
            r is Ok ==> admin_error(self@, caller) is None,
    {
        match self.admin {
            None => Err(PricingAdapterError::NotInitialized),
            Some(a) => if a != caller {
                Err(PricingAdapterError::Unauthorized)
            } else {
                Ok(())
            },
        }
    }

    /// Records the admin. Fails when already initialized.
    pub fn initialize(&mut self, admin: u64) -> (r: Result<(), PricingAdapterError>)
        ensures
            old(self)@.admin is Some ==> r == Err::<(), PricingAdapterError>(
                PricingAdapterError::AlreadyInitialized,
            ) && final(self)@ == old(self)@,
            old(self)@.admin is None ==> r is Ok && final(self)@ == (PricingView {
                admin: Some(admin),
                ..old(self)@
            }),
    {
        if self.admin.is_some() {
            return Err(PricingAdapterError::AlreadyInitialized);
        }
        self.admin = Some(admin);
        assert(self@.assets =~= old(self)@.assets);
        Ok(())
    }

    /// Sets the price of `asset` (scaled by 10^7) and its decimals, stamps
    /// it with `now` and clears any invalidation. Admin only; the price must
    /// be positive.
    pub fn set_price(&mut self, caller: u64, asset: u64, price: i128, asset_decimals: u32, now: u64)
        -> (r: Result<(), PricingAdapterError>)
        ensures
            r is Err ==> final(self)@ == old(self)@,
            admin_error(old(self)@, caller) matches Some(e) ==> r == Err::<(), PricingAdapterError>(
                e,
            ),
            admin_error(old(self)@, caller) is None && price <= 0 ==> r == Err::<
                (),
                PricingAdapterError,
            >(PricingAdapterError::InvalidPrice),
            admin_error(old(self)@, caller) is None && price > 0 ==> r is Ok && final(self)@ == (
            PricingView {
                admin: old(self)@.admin,
                assets: old(self)@.assets.insert(
                    asset,
                    with_price(old(self)@.assets[asset], price, asset_decimals, now),
                ),
            }),
    {
        self.require_admin(caller)?;
        if price <= 0 {
            return Err(PricingAdapterError::InvalidPrice);
        }
        let mut s = self.asset_state(asset);
        s.price = Some(price);
        s.decimals = asset_decimals;
        s.timestamp = now;
        s.invalidated = false;
        self.store(asset, s);
        Ok(())
    }

    /// Sets how old (in seconds) a price of `asset` may be before it is
    /// stale; 0 disables the check. Admin only.
    pub fn set_staleness_window(&mut self, caller: u64, asset: u64, window: u64) -> (r: Result<
        (),
        PricingAdapterError,
    >)
        ensures
            r is Err ==> final(self)@ == old(self)@,
            admin_error(old(self)@, caller) matches Some(e) ==> r == Err::<(), PricingAdapterError>(
                e,
            ),
            admin_error(old(self)@, caller) is None ==> r is Ok && final(self)@ == (PricingView {
                admin: old(self)@.admin,
                assets: old(self)@.assets.insert(
                    asset,
                    with_window(old(self)@.assets[asset], window),
                ),
            }),
    {
        self.require_admin(caller)?;
        let mut s = self.asset_state(asset);
        s.staleness_window = window;
        self.store(asset, s);
        Ok(())
    }

    /// Marks the current price of `asset` invalid until the next
    /// `set_price`. Admin only; the asset must have a price.
    pub fn invalidate_price(&mut self, caller: u64, asset: u64) -> (r: Result<
        (),
        PricingAdapterError,
    >)
        ensures
            r is Err ==> final(self)@ == old(self)@,
            admin_error(old(self)@, caller) matches Some(e) ==> r == Err::<(), PricingAdapterError>(
                e,
            ),
            admin_error(old(self)@, caller) is None && old(self)@.assets[asset].price is None ==> r
                == Err::<(), PricingAdapterError>(PricingAdapterError::PriceNotFound),
            admin_error(old(self)@, caller) is None && old(self)@.assets[asset].price is Some ==> r
                is Ok && final(self)@ == (PricingView {
                admin: old(self)@.admin,
                assets: old(self)@.assets.insert(
                    asset,
                    invalidated(old(self)@.assets[asset]),
                ),
            }),
    {
        self.require_admin(caller)?;
        let mut s = self.asset_state(asset);
        if s.price.is_none() {
            return Err(PricingAdapterError::PriceNotFound);
        }
        s.invalidated = true;
        self.store(asset, s);
        Ok(())
    }

    /// The stored price of `asset`, whether or not it is fresh or valid.
    pub fn get_price(&self, asset: u64) -> (r: Result<i128, PricingAdapterError>)
        ensures
            r == (match self@.assets[asset].price {
                Some(p) => Ok::<i128, PricingAdapterError>(p),
                None => Err(PricingAdapterError::PriceNotFound),
            }),
    {
        match self.asset_state(asset).price {
            Some(p) => Ok(p),
            None => Err(PricingAdapterError::PriceNotFound),
        }
    }

    /// The price of `asset` only when it is neither invalidated nor stale
    /// at `now`.
    pub fn get_safe_price(&self, asset: u64, now: u64) -> (r: Result<i128, PricingAdapterError>)
        ensures
            r == safe_price(self@.assets[asset], now),
    {
        let price = self.get_price(asset)?;
        self.check_price_validity(asset, price, now)
    }

    /// Returns `price` when the record of `asset` is neither invalidated nor
    /// stale at `now`; `age > window` is the test, so a price exactly
    /// `window` seconds old is still fresh.
    fn check_price_validity(&self, asset: u64, price: i128, now: u64) -> (r: Result<
        i128,
        PricingAdapterError,
    >)
        ensures
            r == (if self@.assets[asset].invalidated {
                Err::<i128, PricingAdapterError>(PricingAdapterError::PriceInvalidated)
            } else if is_stale(self@.assets[asset], now) {
                Err(PricingAdapterError::PriceStale)
            } else {
                Ok(price)
            }),
    {
        let s = self.asset_state(asset);
        if s.invalidated {
            return Err(PricingAdapterError::PriceInvalidated);
        }
        let window = s.staleness_window;
        if window > 0 {
            let age = now.saturating_sub(s.timestamp);
            if age > window {
                return Err(PricingAdapterError::PriceStale);
            }
        }
        Ok(price)
    }

    /// The whole price record of `asset` with its validity flags at `now`.
    /// Stale or invalidated prices are reported, not refused.
    pub fn get_price_data(&self, asset: u64, now: u64) -> (r: Result<PriceData, PricingAdapterError>)
        ensures
            r == price_data(self@.assets[asset], now),
    {
        let price = self.get_price(asset)?;
        let s = self.asset_state(asset);
        let is_stale = s.staleness_window > 0 && now.saturating_sub(s.timestamp)
            > s.staleness_window;
        Ok(
            PriceData {
                price,
                timestamp: s.timestamp,
                staleness_window: s.staleness_window,
                is_invalidated: s.invalidated,
                is_stale,
            },
        )
    }

    /// The decimals configured for `asset` (7 unless set).
    pub fn get_asset_decimals(&self, asset: u64) -> (d: u32)
        ensures
            d == self@.assets[asset].decimals,
    {
        self.asset_state(asset).decimals
    }

    /// `amount` of `asset` in base units: `amount * price / 10^decimals`,
    /// truncated toward zero, or 0 when the product leaves `i128`.
    pub fn normalize_amount(&self, asset: u64, amount: i128) -> (r: Result<
        i128,
        PricingAdapterError,
    >)
        ensures
            ({
                let s = self@.assets[asset];
                if amount == 0 {
                    r == Ok::<i128, PricingAdapterError>(0)
                } else if s.price is None {
                    r == Err::<i128, PricingAdapterError>(PricingAdapterError::PriceNotFound)
                } else if pow10(s.decimals as nat) > i128::MAX {
                    r == Err::<i128, PricingAdapterError>(PricingAdapterError::Overflow)
                } else {
                    r == Ok::<i128, PricingAdapterError>(
                        normalized_amount(
                            amount as int,
                            s.price.unwrap() as int,
                            s.decimals as nat,
                        ) as i128,
                    )
                }
            }),
    {
        if amount == 0 {
            return Ok(0);
        }
        let price = self.get_price(asset)?;
        let decimals = self.get_asset_decimals(asset);
        let denominator = match checked_pow10(decimals) {
            Some(v) => v,
            None => return Err(PricingAdapterError::Overflow),
        };
        let normalized = match amount.checked_mul(price) {
            Some(v) => match v.checked_div(denominator) {
                Some(q) => q,
                None => 0,
            },
            None => 0,
        };
        Ok(normalized)
    }
}

/// A price just set is safe to use at the time it was set, whatever the
/// window and whether it had been invalidated before.
pub proof fn law_fresh_price_is_safe(s: AssetPriceState, price: i128, decimals: u32, now: u64)
    requires
        price > 0,
    ensures
        safe_price(
            AssetPriceState {
                price: Some(price),
                decimals,
                timestamp: now,
                invalidated: false,
                ..s
            },
            now,
        ) == Ok::<i128, PricingAdapterError>(price),
{
}

/// An invalidated price is refused by `get_safe_price` at any time, while
/// `get_price` still returns it.
pub proof fn law_invalidated_price_is_refused(s: AssetPriceState, now: u64)
    requires
        s.price is Some,
    ensures
        safe_price(AssetPriceState { invalidated: true, ..s }, now) == Err::<
            i128,
            PricingAdapterError,
        >(PricingAdapterError::PriceInvalidated),
        (AssetPriceState { invalidated: true, ..s }).price == s.price,
{
}

/// `get_safe_price` succeeds exactly when `get_price_data` reports a price
/// that is neither invalidated nor stale, and then returns that price.
pub proof fn law_safe_price_agrees_with_price_data(s: AssetPriceState, now: u64)
    ensures
        safe_price(s, now) is Ok <==> (s.price is Some && !s.invalidated && !is_stale(s, now)),
        safe_price(s, now) matches Ok(p) ==> s.price == Some(p),
{
}

/// Without a staleness window a price never goes stale.
pub proof fn law_zero_window_never_stale(s: AssetPriceState, now: u64)
    requires
        s.staleness_window == 0,
    ensures
        !is_stale(s, now),
{
}

/// A price is fresh up to and including `window` seconds after it was set,
/// and stale one second later.
pub proof fn law_staleness_boundary(s: AssetPriceState)
    requires
        s.staleness_window > 0,
        s.timestamp + s.staleness_window + 1 <= u64::MAX,
    ensures
        !is_stale(s, (s.timestamp + s.staleness_window) as u64),
        is_stale(s, (s.timestamp + s.staleness_window + 1) as u64),
{
}

/// After `set_price(price, decimals)` at `t0` followed by any window
/// changes and invalidations, the record keeps that price, its decimals and
/// `t0`, and `get_price_data` reports the last window set, whether any
/// invalidation happened, and staleness against that window; it never
/// fails for staleness or invalidation.
pub proof fn law_price_data_after_updates(
    s: AssetPriceState,
    price: i128,
    decimals: u32,
    t0: u64,
    changes: Seq<PriceChange>,
    now: u64,
)
    ensures
        ({
            let r = apply_changes(with_price(s, price, decimals, t0), changes);
            let w = last_window(s.staleness_window, changes);
            &&& r.price == Some(price)
            &&& r.decimals == decimals
            &&& r.timestamp == t0
            &&& r.staleness_window == w
            &&& r.invalidated == changes.contains(PriceChange::Invalidate)
            &&& price_data(r, now) == Ok::<PriceData, PricingAdapterError>(
                PriceData {
                    price,
                    timestamp: t0,
                    staleness_window: w,
                    is_invalidated: changes.contains(PriceChange::Invalidate),
                    is_stale: w > 0 && price_age(now, t0) > w,
                },
            )
        }),
    decreases changes.len(),
{
    if changes.len() > 0 {
        let d = changes.drop_last();
        law_price_data_after_updates(s, price, decimals, t0, d, now);
        let last = changes.last();
        assert(changes =~= d.push(last));
        assert(changes.contains(PriceChange::Invalidate) == (d.contains(PriceChange::Invalidate)
            || last == PriceChange::Invalidate)) by {
            if d.contains(PriceChange::Invalidate) {
                let j = choose|j: int| 0 <= j < d.len() && d[j] == PriceChange::Invalidate;
                assert(changes[j] == d[j]);
            }
            if last == PriceChange::Invalidate {
                assert(changes[changes.len() - 1] == last);
            }
            if changes.contains(PriceChange::Invalidate) {
                let j = choose|j: int| 0 <= j < changes.len() && changes[j] == PriceChange::Invalidate;
                if j < d.len() {
                    assert(d[j] == changes[j]);
                }
            }
        }
    }
}

/// `get_price` returns the price last set, whatever the staleness window,
/// the time, or any invalidation since.
pub proof fn law_price_kept_until_next_set(
    s: AssetPriceState,
    price: i128,
    decimals: u32,
    t0: u64,
    changes: Seq<PriceChange>,
)
    ensures
        apply_changes(with_price(s, price, decimals, t0), changes).price == Some(price),
{
    law_price_data_after_updates(s, price, decimals, t0, changes, t0);
}

} // verus!
