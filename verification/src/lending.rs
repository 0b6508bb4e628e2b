//! An interest-bearing lending pool: deposits mint a-tokens against a
//! per-asset reserve, withdrawals burn them for a share of the reserve, and
//! simple interest accrues on the reserve over time.
use std::collections::HashMap;
use vstd::prelude::*;

use crate::ledger::{fits_i128, is_sum_of_balances, sum_over, Ledger};
use crate::transfer::TokenTransfer;

verus! {

broadcast use vstd::std_specs::hash::group_hash_axioms;

/// Base variable rate: 3% a year, in basis points.
pub const VARIABLE_RATE: u32 = 300;

/// Stable rate: 5% a year, in basis points (offered for reference only).
pub const STABLE_RATE: u32 = 500;

/// Seconds in a 365-day year.
pub const SECONDS_PER_YEAR: i128 = 31_536_000;

#[derive(Clone, Copy, Debug, PartialEq, Eq, Structural)]
pub enum LendingError {
    AlreadyInitialized,
    InvalidAmount,
    NotInitialized,
    InsufficientBalance,
    /// An intermediate value leaves the range of its integer type; the
    /// deployed contract aborts the invocation in that case.
    Overflow,
}

/// Published when interest is added to a reserve.
#[derive(Clone, Copy, Debug, PartialEq, Eq, Structural)]
pub struct InterestAccruedEvent {
    pub reserve: i128,
    pub interest: i128,
    pub elapsed: u64,
}

/// a-tokens minted for a deposit of `amount` into a reserve holding
/// `reserve` underlying tokens against `supply` a-tokens.
pub open spec fn minted_for_deposit(amount: int, reserve: int, supply: int) -> int {
    if supply == 0 {
        amount
    } else {
        (amount * supply) / (reserve + 1)
    }
}

/// Underlying tokens paid out for burning `amount` a-tokens.
pub open spec fn redeemed_for_withdraw(amount: int, reserve: int, supply: int) -> int {
    if supply == 0 {
        amount
    } else {
        (amount * reserve) / supply
    }
}

/// The variable borrow rate in basis points: 3% plus 2% per 100% utilisation.
pub open spec fn variable_rate(reserve: int, total_debt: int) -> int {
    if reserve == 0 {
        VARIABLE_RATE as int
    } else {
        VARIABLE_RATE + 20 * ((total_debt * 100) / (total_debt + reserve))
    }
}

/// Simple interest on `reserve` at `rate` basis points over `elapsed` seconds.
pub open spec fn accrued_interest(reserve: int, rate: int, elapsed: int) -> int {
    (reserve * rate * elapsed) / (SECONDS_PER_YEAR * 10000)
}

/// What the pool records for one asset.
pub struct AssetView {
    pub reserve: int,
    pub a_token_supply: int,
    pub total_debt: int,
    pub last_accrual: Option<u64>,
    /// a-token balance of every account (0 for accounts that never deposited).
    pub a_tokens: Map<u64, int>,
    /// Time of each account's last deposit.
    pub deposit_times: Map<u64, u64>,
}

/// The whole pool: its admin and every asset's record (a total map).
pub struct LendingPoolView {
    pub admin: Option<u64>,
    pub assets: Map<u64, AssetView>,
}

pub open spec fn empty_asset() -> AssetView {
    AssetView {
        reserve: 0,
        a_token_supply: 0,
        total_debt: 0,
        last_accrual: None,
        a_tokens: Map::new(|u: u64| true, |u: u64| 0int),
        deposit_times: Map::empty(),
    }
}

/// The invariant of an asset record: amounts non-negative and within `i128`, no reserve
/// without a-tokens, balances bounded by the supply, and no recorded debt.
pub open spec fn asset_consistent(a: AssetView) -> bool {
    &&& a.reserve >= 0
    &&& a.a_token_supply >= 0
    &&& a.reserve <= i128::MAX && a.a_token_supply <= i128::MAX
    &&& a.a_token_supply == 0 ==> a.reserve == 0
    &&& a.total_debt == 0
    &&& forall|u: u64| 0 <= #[trigger] a.a_tokens[u] <= a.a_token_supply
    &&& forall|u: u64| #[trigger] a.a_tokens.contains_key(u)
}

/// The pool after `user` deposited `amount` of `asset` at `now` and received
/// `minted` a-tokens.
pub open spec fn after_deposit(
    p: LendingPoolView,
    asset: u64,
    user: u64,
    amount: int,
    minted: int,
    now: u64,
) -> LendingPoolView {
    let a = p.assets[asset];
    LendingPoolView {
        admin: p.admin,
        assets: p.assets.insert(
            asset,
            AssetView {
                reserve: a.reserve + amount,
                a_token_supply: a.a_token_supply + minted,
                a_tokens: a.a_tokens.insert(user, a.a_tokens[user] + minted),
                deposit_times: a.deposit_times.insert(user, now),
                ..a
            },
        ),
    }
}

/// The pool after `user` burned `amount` a-tokens of `asset` for `paid`
/// underlying tokens.
pub open spec fn after_withdraw(
    p: LendingPoolView,
    asset: u64,
    user: u64,
    amount: int,
    paid: int,
) -> LendingPoolView {
    let a = p.assets[asset];
    LendingPoolView {
        admin: p.admin,
        assets: p.assets.insert(
            asset,
            AssetView {
                reserve: a.reserve - paid,
                a_token_supply: a.a_token_supply - amount,
                a_tokens: a.a_tokens.insert(user, a.a_tokens[user] - amount),
                ..a
            },
        ),
    }
}

/// The pool after `interest` was added to the reserve of `asset` at `now`.
pub open spec fn after_accrual(p: LendingPoolView, asset: u64, interest: int, now: u64) -> LendingPoolView {
    let a = p.assets[asset];
    LendingPoolView {
        admin: p.admin,
        assets: p.assets.insert(
            asset,
            AssetView { reserve: a.reserve + interest, last_accrual: Some(now), ..a },
        ),
    }
}

/// The start of the current accrual period: the recorded time, or `now` when
/// none was ever recorded.
pub open spec fn accrual_start(a: AssetView, now: u64) -> u64 {
    match a.last_accrual {
        Some(t) => t,
        None => now,
    }
}

/// The state kept for one asset.
pub struct ReserveState {
    reserve: i128,
    a_token_supply: i128,
    /// No operation of the pool records debt, so this stays 0.
    total_debt: i128,
    last_accrual: Option<u64>,
    a_tokens: Ledger,
    deposit_times: HashMap<u64, u64>,
}

impl ReserveState {
    pub closed spec fn wf(&self) -> bool {
        &&& self.a_tokens.wf()
        &&& self.a_token_supply == self.a_tokens.total()
        &&& self.reserve >= 0
        &&& self.a_token_supply >= 0
        &&& self.a_token_supply == 0 ==> self.reserve == 0
        &&& self.total_debt == 0
    }

    pub closed spec fn view(&self) -> AssetView {
        AssetView {
            reserve: self.reserve as int,
            a_token_supply: self.a_token_supply as int,
            total_debt: self.total_debt as int,
            last_accrual: self.last_accrual,
            a_tokens: Map::new(|u: u64| true, |u: u64| self.a_tokens.balance(u)),
            deposit_times: self.deposit_times@,
        }
    }

    proof fn lemma_consistent(&self)
        requires
            self.wf(),
        ensures
            asset_consistent(self.view()),
    {
        assert forall|u: u64| 0 <= #[trigger] self.view().a_tokens[u] <= self.view().a_token_supply by {
            self.a_tokens.lemma_balance_bounded(u);
        }
    }

    proof fn lemma_a_tokens_add_up(&self)
        requires
            self.wf(),
        ensures
            is_sum_of_balances(self.view().a_token_supply, self.view().a_tokens),
    {
        self.a_tokens.lemma_total_is_sum(self.view().a_tokens);
    }

    fn empty() -> (r: ReserveState)
        ensures
            r.wf(),
            r.view() == empty_asset(),
    {
        let r = ReserveState {
            reserve: 0,
            a_token_supply: 0,
            total_debt: 0,
            last_accrual: None,
            a_tokens: Ledger::new(),
            deposit_times: HashMap::new(),
        };
        assert(r.view().a_tokens =~= empty_asset().a_tokens);
        r
    }
}

/// The lending pool: an optional admin and one reserve per asset.
pub struct AaveLendingPoolContract {
    admin: Option<u64>,
    reserves: HashMap<u64, ReserveState>,
}

impl View for AaveLendingPoolContract {
    type V = LendingPoolView;

    closed spec fn view(&self) -> LendingPoolView {
        LendingPoolView {
            admin: self.admin,
            assets: Map::new(|a: u64| true, |a: u64| self.asset_view(a)),
        }
    }
}

impl AaveLendingPoolContract {
    pub closed spec fn wf(&self) -> bool {
        forall|a: u64| #[trigger] self.reserves@.contains_key(a) ==> self.reserves@[a].wf()
    }

    closed spec fn asset_view(&self, a: u64) -> AssetView {
        if self.reserves@.contains_key(a) {
            self.reserves@[a].view()
        } else {
            empty_asset()
        }
    }

    proof fn lemma_a_tokens_add_up(&self, asset: u64)
        requires
            self.wf(),
        ensures
            is_sum_of_balances(self@.assets[asset].a_token_supply, self@.assets[asset].a_tokens),
    {
        if self.reserves@.contains_key(asset) {
            self.reserves@[asset].lemma_a_tokens_add_up();
        } else {
            let bal = self@.assets[asset].a_tokens;
            assert(sum_over(Seq::<u64>::empty(), bal) == 0);
            assert(forall|u: u64| !Seq::<u64>::empty().contains(u) ==> bal[u] == 0);
        }
    }

    /// Every asset record of a well-formed pool is consistent.
    proof fn lemma_consistent(&self, asset: u64)
        requires
            self.wf(),
        ensures
            asset_consistent(self@.assets[asset]),
    {
        if self.reserves@.contains_key(asset) {
            self.reserves@[asset].lemma_consistent();
        }
    }

    pub fn new() -> (p: AaveLendingPoolContract)
        ensures
            p.wf(),
            p@.admin is None,
            forall|a: u64| #[trigger] p@.assets[a] == empty_asset(),
    {
        AaveLendingPoolContract { admin: None, reserves: HashMap::new() }
    }

    /// Takes the reserve of `asset` out of the map (an empty one when absent).
    fn take_reserve(&mut self, asset: u64) -> (r: ReserveState)
        requires
            old(self).wf(),
        ensures
            r.wf(),
            r.view() == old(self)@.assets[asset],
            final(self).wf(),
            final(self).admin == old(self).admin,
            final(self).reserves@ == old(self).reserves@.remove(asset),
    {
        match self.reserves.remove(&asset) {
            Some(r) => r,
            None => ReserveState::empty(),
        }
    }

    /// Puts a reserve back after `take_reserve`.
    fn put_reserve(&mut self, asset: u64, r: ReserveState, Ghost(before): Ghost<LendingPoolView>)
        requires
            old(self).wf(),
            r.wf(),
            !old(self).reserves@.contains_key(asset),
            forall|a: u64| a != asset ==> #[trigger] old(self)@.assets[a] == before.assets[a],
            old(self).admin == before.admin,
            forall|a: u64| #[trigger] before.assets.contains_key(a),
        ensures
            final(self).wf(),
            final(self)@ == (LendingPoolView {
                admin: before.admin,
                assets: before.assets.insert(asset, r.view()),
            }),
    {
        let ghost prior = *old(self);
        self.reserves.insert(asset, r);
        assert forall|a: u64| #[trigger] self@.assets[a] == before.assets.insert(asset, r.view())[a] by {
            assert(self@.assets[a] == self.asset_view(a));
            if a != asset {
                assert(self.reserves@.contains_key(a) == prior.reserves@.contains_key(a));
                if self.reserves@.contains_key(a) {
                    assert(self.reserves@[a] == prior.reserves@[a]);
                }
                assert(prior@.assets[a] == prior.asset_view(a));
            } else {
                assert(self.reserves@.contains_key(a));
            }
        }
        assert(self@.assets =~= before.assets.insert(asset, r.view()));
    }

    fn reserve_of(&self, asset: u64) -> (r: Option<&ReserveState>)
        requires
            self.wf(),
        ensures
            r matches Some(x) ==> x.wf() && x.view() == self@.assets[asset],
            r is None ==> self@.assets[asset] == empty_asset(),
    {
        self.reserves.get(&asset)
    }

    /// Records the pool's admin. Fails when one is already set.
    pub fn initialize(&mut self, admin: u64) -> (r: Result<(), LendingError>)
        requires
            old(self).wf(),
        ensures
            final(self).wf(),
            old(self)@.admin is Some ==> r == Err::<(), LendingError>(
                LendingError::AlreadyInitialized,
            ) && final(self)@ == old(self)@,
            old(self)@.admin is None ==> r is Ok && final(self)@ == (LendingPoolView {
                admin: Some(admin),
                ..old(self)@
            }),
    {
        if self.admin.is_some() {
            return Err(LendingError::AlreadyInitialized);
        }
        self.admin = Some(admin);
        assert(self@.assets =~= old(self)@.assets);
        Ok(())
    }

    /// a-token balance of `user` for `asset`.
    pub fn balance_of(&self, user: u64, asset: u64) -> (b: i128)
        requires
            self.wf(),
        ensures
            b == self@.assets[asset].a_tokens[user],
    {
        match self.reserve_of(asset) {
            Some(r) => r.a_tokens.get(user),
            None => 0,
        }
    }

    /// Underlying tokens held for `asset`.
    pub fn get_reserve(&self, asset: u64) -> (b: i128)
        requires
            self.wf(),
        ensures
            b == self@.assets[asset].reserve,
    {
        match self.reserve_of(asset) {
            Some(r) => r.reserve,
            None => 0,
        }
    }

    /// The variable rate for `asset` in basis points.
    pub fn get_variable_rate(&self, asset: u64) -> (rate: u32)
        requires
            self.wf(),
        ensures
            rate == variable_rate(self@.assets[asset].reserve, self@.assets[asset].total_debt),
    {
        let (reserve, total_debt) = match self.reserve_of(asset) {
            Some(r) => (r.reserve, r.total_debt),
            None => (0i128, 0i128),
        };
        proof { self.lemma_consistent(asset); }
        if reserve == 0 {
            return VARIABLE_RATE;
        }
        let utilization = (total_debt * 100) / (total_debt + reserve);
        assert(utilization == 0);
        VARIABLE_RATE + (utilization as u32) * 20
    }

    /// Deposits `amount` of `asset` from `invoker`, crediting the minted
    /// a-tokens to `on_behalf_of`. Returns the minted amount and the transfer
    /// of `amount` into the pool.
    pub fn deposit(&mut self, asset: u64, amount: i128, on_behalf_of: u64, invoker: u64, now: u64)
        -> (r: Result<(i128, TokenTransfer), LendingError>)
        requires
            old(self).wf(),
        ensures
            final(self).wf(),
            ({
                let a = old(self)@.assets[asset];
                let minted = minted_for_deposit(amount as int, a.reserve, a.a_token_supply);
                let overflows = (a.a_token_supply != 0 && (!fits_i128(amount * a.a_token_supply)
                    || !fits_i128(a.reserve + 1))) || !fits_i128(a.reserve + amount)
                    || !fits_i128(a.a_token_supply + minted);
                &&& amount <= 0 ==> r == Err::<(i128, TokenTransfer), LendingError>(
                    LendingError::InvalidAmount,
                )
                &&& amount > 0 && old(self)@.admin is None ==> r == Err::<
                    (i128, TokenTransfer),
                    LendingError,
                >(LendingError::NotInitialized)
                &&& amount > 0 && old(self)@.admin is Some && overflows ==> r == Err::<
                    (i128, TokenTransfer),
                    LendingError,
                >(LendingError::Overflow)
                &&& r is Err ==> final(self)@ == old(self)@
                &&& amount > 0 && old(self)@.admin is Some && !overflows ==> {
                    &&& r == Ok::<(i128, TokenTransfer), LendingError>(
                        (minted as i128, TokenTransfer::In { token: asset, from: invoker, amount }),
                    )
                    &&& final(self)@ == after_deposit(
                        old(self)@,
                        asset,
                        on_behalf_of,
                        amount as int,
                        minted,
                        now,
                    )
                }
            }),
    {
        if amount <= 0 {
            return Err(LendingError::InvalidAmount);
        }
        if self.admin.is_none() {
            return Err(LendingError::NotInitialized);
        }
        let (reserve, supply) = match self.reserve_of(asset) {
            Some(r) => (r.reserve, r.a_token_supply),
            None => (0i128, 0i128),
        };
        proof { self.lemma_consistent(asset); }
        let a_tokens = if supply == 0 {
            amount
        } else {
            let product = match amount.checked_mul(supply) {
                Some(v) => v,
                None => return Err(LendingError::Overflow),
            };
            let divisor = match reserve.checked_add(1) {
                Some(v) => v,
                None => return Err(LendingError::Overflow),
            };
            assert(product >= 0) by (nonlinear_arith) requires product == amount * supply, amount > 0, supply >= 0;
            product / divisor
        };
        let new_reserve = match reserve.checked_add(amount) {
            Some(v) => v,
            None => return Err(LendingError::Overflow),
        };
        assert(a_tokens >= 0);
        let new_supply = match supply.checked_add(a_tokens) {
            Some(v) => v,
            None => return Err(LendingError::Overflow),
        };
        let ghost before = self@;
        let mut entry = self.take_reserve(asset);
        let user_a_tokens = entry.a_tokens.get(on_behalf_of);
        proof { entry.a_tokens.lemma_balance_bounded(on_behalf_of); }
        entry.reserve = new_reserve;
        entry.a_token_supply = new_supply;
        entry.a_tokens.set(on_behalf_of, user_a_tokens + a_tokens);
        entry.deposit_times.insert(on_behalf_of, now);
        assert(entry.view().a_tokens =~= before.assets[asset].a_tokens.insert(
            on_behalf_of,
            before.assets[asset].a_tokens[on_behalf_of] + a_tokens,
        ));
        self.put_reserve(asset, entry, Ghost(before));
        assert(self@ =~= after_deposit(before, asset, on_behalf_of, amount as int, a_tokens as int, now));
        Ok((a_tokens, TokenTransfer::In { token: asset, from: invoker, amount }))
    }

    /// Burns `amount` of the invoker's a-tokens of `asset` and pays out the
    /// corresponding share of the reserve to `to`. Returns the amount paid
    /// and the transfer out of the pool.
    pub fn withdraw(&mut self, asset: u64, amount: i128, to: u64, invoker: u64) -> (r: Result<
        (i128, TokenTransfer),
        LendingError,
    >)
        requires
            old(self).wf(),
        ensures
            final(self).wf(),
            ({
                let a = old(self)@.assets[asset];
                let paid = redeemed_for_withdraw(amount as int, a.reserve, a.a_token_supply);
                let overflows = a.a_token_supply != 0 && !fits_i128(amount * a.reserve);
                &&& amount <= 0 ==> r == Err::<(i128, TokenTransfer), LendingError>(
                    LendingError::InvalidAmount,
                )
                &&& amount > 0 && a.a_tokens[invoker] < amount ==> r == Err::<
                    (i128, TokenTransfer),
                    LendingError,
                >(LendingError::InsufficientBalance)
                &&& amount > 0 && a.a_tokens[invoker] >= amount && overflows ==> r == Err::<
                    (i128, TokenTransfer),
                    LendingError,
                >(LendingError::Overflow)
                &&& r is Err ==> final(self)@ == old(self)@
                &&& amount > 0 && a.a_tokens[invoker] >= amount && !overflows ==> {
                    &&& r == Ok::<(i128, TokenTransfer), LendingError>(
                        (paid as i128, TokenTransfer::Out { token: asset, to, amount: paid as i128 }),
                    )
                    &&& 0 <= paid <= a.reserve
                    &&& final(self)@ == after_withdraw(old(self)@, asset, invoker, amount as int, paid)
                }
            }),
            r matches Ok(t) ==> ({
                let a = old(self)@.assets[asset];
                &&& a.a_token_supply > 0
                &&& t.0 * a.a_token_supply <= amount * a.reserve
                &&& amount * a.reserve < (t.0 + 1) * a.a_token_supply
            }),
    {
        proof {
            let a = old(self)@.assets[asset];
            if a.a_token_supply > 0 {
                law_withdraw_pays_proportional_share(amount as int, a.reserve, a.a_token_supply);
            }
        }
        if amount <= 0 {
            return Err(LendingError::InvalidAmount);
        }
        proof { self.lemma_consistent(asset); }
        let user_a_tokens = self.balance_of(invoker, asset);
        if user_a_tokens < amount {
            return Err(LendingError::InsufficientBalance);
        }
        let (reserve, supply) = match self.reserve_of(asset) {
            Some(r) => (r.reserve, r.a_token_supply),
            None => (0i128, 0i128),
        };
        let underlying = if supply == 0 {
            amount
        } else {
            let product = match amount.checked_mul(reserve) {
                Some(v) => v,
                None => return Err(LendingError::Overflow),
            };
            assert(0 <= product / supply <= reserve) by (nonlinear_arith)
                requires product == amount * reserve, 0 < amount <= supply, reserve >= 0;
            assert(amount == supply ==> product / supply == reserve) by (nonlinear_arith)
                requires product == amount * reserve, supply > 0;
            product / supply
        };
        let ghost before = self@;
        let mut entry = self.take_reserve(asset);
        entry.reserve = reserve - underlying;
        entry.a_token_supply = supply - amount;
        entry.a_tokens.set(invoker, user_a_tokens - amount);
        assert(entry.view().a_tokens =~= before.assets[asset].a_tokens.insert(
            invoker,
            before.assets[asset].a_tokens[invoker] - amount,
        ));
        self.put_reserve(asset, entry, Ghost(before));
        assert(self@ =~= after_withdraw(before, asset, invoker, amount as int, underlying as int));
        Ok((underlying, TokenTransfer::Out { token: asset, to, amount: underlying }))
    }

    /// Adds simple interest for the time elapsed since the last accrual of
    /// `asset`, and records `now` as the start of the next period. Returns
    /// the interest added, and the event to publish when any time elapsed.
    /// The first call on an asset starts its first period and adds nothing.
    pub fn accrue_interest(&mut self, asset: u64, now: u64) -> (r: Result<
        (i128, Option<InterestAccruedEvent>),
        LendingError,
    >)
        requires
            old(self).wf(),
        ensures
            final(self).wf(),
            ({
                let a = old(self)@.assets[asset];
                let start = accrual_start(a, now);
                let elapsed = now - start;
                let rate = variable_rate(a.reserve, a.total_debt);
                let interest = accrued_interest(a.reserve, rate, elapsed);
                let overflows = !fits_i128(a.reserve * rate * elapsed) || !fits_i128(
                    a.reserve + interest,
                );
                &&& now < start ==> r == Err::<(i128, Option<InterestAccruedEvent>), LendingError>(
                    LendingError::Overflow,
                )
                &&& now == start ==> r == Ok::<(i128, Option<InterestAccruedEvent>), LendingError>(
                    (0, None),
                )
                &&& now > start && overflows ==> r == Err::<
                    (i128, Option<InterestAccruedEvent>),
                    LendingError,
                >(LendingError::Overflow)
                &&& r is Err ==> final(self)@ == old(self)@
                &&& now == start ==> final(self)@ == after_accrual(old(self)@, asset, 0, now)
                &&& a.last_accrual is None ==> {
                    &&& r == Ok::<(i128, Option<InterestAccruedEvent>), LendingError>((0, None))
                    &&& final(self)@.assets[asset].reserve == a.reserve
                    &&& final(self)@.assets[asset].last_accrual == Some(now)
                }
                &&& now > start && !overflows ==> {
                    &&& interest >= 0
                    &&& r == Ok::<(i128, Option<InterestAccruedEvent>), LendingError>(
                        (
                            interest as i128,
                            Some(
                                InterestAccruedEvent {
                                    reserve: (a.reserve + interest) as i128,
                                    interest: interest as i128,
                                    elapsed: elapsed as u64,
                                },
                            ),
                        ),
                    )
                    &&& final(self)@ == after_accrual(old(self)@, asset, interest, now)
                }
            }),
    {
        proof { self.lemma_consistent(asset); }
        let (reserve, last) = match self.reserve_of(asset) {
            Some(r) => (r.reserve, r.last_accrual),
            None => (0i128, None),
        };
        let last_accrual = match last {
            Some(t) => t,
            None => now,
        };
        if now < last_accrual {
            return Err(LendingError::Overflow);
        }
        let elapsed = now - last_accrual;
        if elapsed == 0 {
            let ghost before = self@;
            let mut entry = self.take_reserve(asset);
            entry.last_accrual = Some(now);
            self.put_reserve(asset, entry, Ghost(before));
            assert(self@ =~= after_accrual(before, asset, 0, now));
            return Ok((0, None));
        }
        let rate = self.get_variable_rate(asset);
        let seconds_per_year: i128 = SECONDS_PER_YEAR;
        let scaled = match reserve.checked_mul(rate as i128) {
            Some(v) => v,
            None => {
                assert(reserve * rate * elapsed > i128::MAX) by (nonlinear_arith)
                    requires reserve * rate > i128::MAX, elapsed >= 1, reserve >= 0, rate >= 0;
                return Err(LendingError::Overflow);
            },
        };
        let product = match scaled.checked_mul(elapsed as i128) {
            Some(v) => v,
            None => return Err(LendingError::Overflow),
        };
        assert(product >= 0) by (nonlinear_arith)
            requires product == scaled * elapsed, scaled == reserve * rate, reserve >= 0, rate >= 0, elapsed >= 0;
        let interest = product / (seconds_per_year * 10000);
        let new_reserve = match reserve.checked_add(interest) {
            Some(v) => v,
            None => return Err(LendingError::Overflow),
        };
        assert(reserve == 0 ==> interest == 0) by (nonlinear_arith)
            requires product == reserve * rate * elapsed, interest == product / 315360000000i128;
        let ghost before = self@;
        let mut entry = self.take_reserve(asset);
        entry.reserve = new_reserve;
        entry.last_accrual = Some(now);
        self.put_reserve(asset, entry, Ghost(before));
        assert(self@ =~= after_accrual(before, asset, interest as int, now));
        Ok((interest, Some(InterestAccruedEvent { reserve: new_reserve, interest, elapsed })))
    }
}

/// Redeeming the a-tokens that a deposit minted never pays out more than
/// was deposited: the pool cannot be drained by a deposit followed by a
/// withdrawal.
pub proof fn law_deposit_withdraw_no_profit(reserve: int, supply: int, amount: int)
    requires
        reserve >= 0,
        supply >= 0,
        supply == 0 ==> reserve == 0,
        amount > 0,
    ensures
        ({
            let minted = minted_for_deposit(amount, reserve, supply);
            &&& minted >= 0
            &&& redeemed_for_withdraw(minted, reserve + amount, supply + minted) <= amount
        }),
{
    let minted = minted_for_deposit(amount, reserve, supply);
    if supply == 0 {
        assert((amount * amount) / amount == amount) by (nonlinear_arith) requires amount > 0;
    } else {
        assert(minted >= 0) by (nonlinear_arith)
            requires minted == (amount * supply) / (reserve + 1), amount > 0, supply > 0, reserve >= 0;
        assert(minted * (reserve + 1) <= amount * supply) by (nonlinear_arith)
            requires minted == (amount * supply) / (reserve + 1), amount > 0, supply > 0, reserve >= 0;
        assert(minted * (reserve + amount) <= amount * (supply + minted)) by (nonlinear_arith)
            requires minted * (reserve + 1) <= amount * supply, minted >= 0, reserve >= 0, amount > 0;
        assert((minted * (reserve + amount)) / (supply + minted) <= amount) by (nonlinear_arith)
            requires minted * (reserve + amount) <= amount * (supply + minted), supply > 0, minted >= 0;
    }
}

/// Burning the whole a-token supply of an asset pays out its whole reserve.
pub proof fn law_full_withdraw_drains_reserve(reserve: int, supply: int)
    requires
        reserve >= 0,
        supply > 0,
    ensures
        redeemed_for_withdraw(supply, reserve, supply) == reserve,
{
    assert((supply * reserve) / supply == reserve) by (nonlinear_arith) requires supply > 0;
}

/// Every operation of the pool keeps each asset's record consistent:
/// non-negative reserve and supply, no reserve without a-tokens, every
/// balance within the supply, and no debt.
pub proof fn law_pool_consistent(p: AaveLendingPoolContract, asset: u64)
    requires
        p.wf(),
    ensures
        asset_consistent(p@.assets[asset]),
{
    p.lemma_consistent(asset);
}

/// An asset's a-token supply is always the sum of all holders' a-tokens.
pub proof fn law_a_tokens_add_up(p: AaveLendingPoolContract, asset: u64)
    requires
        p.wf(),
    ensures
        is_sum_of_balances(p@.assets[asset].a_token_supply, p@.assets[asset].a_tokens),
{
    p.lemma_a_tokens_add_up(asset);
}

/// After a successful accrual at `t1` (the first one included), the next
/// period of `asset` starts at `t1`: a call at `t2` adds the interest for
/// `t2 - t1` seconds on the new reserve.
pub proof fn law_interest_accrues_from_last_call(
    p: LendingPoolView,
    asset: u64,
    interest: int,
    t1: u64,
    t2: u64,
)
    ensures
        ({
            let a = after_accrual(p, asset, interest, t1).assets[asset];
            &&& accrual_start(a, t2) == t1
            &&& a.reserve == p.assets[asset].reserve + interest
        }),
{
}

/// Burning `amount` a-tokens of a reserve holding `reserve` against
/// `supply` a-tokens pays the proportional share `amount * reserve / supply`
/// rounded down, partial burns included: interest added to the reserve is
/// paid out with it.
pub proof fn law_withdraw_pays_proportional_share(amount: int, reserve: int, supply: int)
    requires
        supply > 0,
    ensures
        redeemed_for_withdraw(amount, reserve, supply) * supply <= amount * reserve,
        amount * reserve < (redeemed_for_withdraw(amount, reserve, supply) + 1) * supply,
{
    let x = amount * reserve;
    let q = x / supply;
    assert(q * supply <= x && x < (q + 1) * supply) by (nonlinear_arith)
        requires supply > 0, q == x / supply;
}

/// The first accrual on an asset starts its accrual period at the time of
/// the call and adds no interest, whatever that time is.
pub proof fn law_first_accrual_adds_nothing(a: AssetView, now: u64)
    requires
        a.last_accrual is None,
    ensures
        accrual_start(a, now) == now,
        accrued_interest(a.reserve, variable_rate(a.reserve, a.total_debt), now - accrual_start(a, now)) == 0,
{
    let rate = variable_rate(a.reserve, a.total_debt);
    assert(a.reserve * rate * 0 == 0) by (nonlinear_arith);
}

} // verus!
