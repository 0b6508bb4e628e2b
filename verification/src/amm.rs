//! A constant-product (x * y = k) liquidity pool over two tokens with a
//! 0.3% swap fee, LP shares, and a simulated fee accrual on the reserves.
use vstd::prelude::*;

use crate::ledger::{fits_i128, is_sum_of_balances, Ledger};
use crate::math::{
    floor_sqrt, is_floor_sqrt, lemma_floor_sqrt_unique, lemma_newton_no_overflow,
    lemma_newton_step_stays_above,
};
use crate::transfer::TokenTransfer;

verus! {

/// Swap fee in basis points (0.3%).
pub const SWAP_FEE_BP: i128 = 30;

/// Simulated annual fee accrual on reserves, in basis points (0.05%).
pub const FEE_ACCRUAL_BP: i128 = 5;

/// Seconds in a 365-day year.
pub const SECONDS_PER_YEAR: i128 = 31_536_000;

#[derive(Clone, Copy, Debug, PartialEq, Eq, Structural)]
pub enum AmmError {
    AlreadyInitialized,
    InvalidAmount,
    NotInitialized,
    SlippageExceeded,
    InsufficientBalance,
    /// An intermediate value leaves the range of its integer type; the
    /// deployed contract aborts the invocation in that case.
    Overflow,
    /// A division by zero; the deployed contract aborts the invocation.
    DivisionByZero,
}

pub open spec fn min_int(a: int, b: int) -> int {
    if a < b {
        a
    } else {
        b
    }
}

/// LP shares minted for depositing `a0` and `a1` into reserves `r0`, `r1`
/// with `supply` shares outstanding: the geometric mean for the first
/// deposit, otherwise the smaller of the two proportional shares.
pub open spec fn minted_lp(a0: int, a1: int, r0: int, r1: int, supply: int) -> int {
    if supply == 0 {
        floor_sqrt(a0 * a1)
    } else {
        min_int((a0 * supply) / (r0 + 1), (a1 * supply) / (r1 + 1))
    }
}

/// Whether computing `minted_lp` leaves the machine integers.
pub open spec fn mint_overflows(a0: int, a1: int, r0: int, r1: int, supply: int) -> bool {
    if supply == 0 {
        a0 * a1 > u128::MAX
    } else {
        !fits_i128(a0 * supply) || !fits_i128(r0 + 1) || !fits_i128(a1 * supply) || !fits_i128(
            r1 + 1,
        )
    }
}

/// Fees accrued on `reserve` over `elapsed` seconds.
pub open spec fn fee_accrual(reserve: int, elapsed: int) -> int {
    (reserve * FEE_ACCRUAL_BP * elapsed) / (SECONDS_PER_YEAR * 10000)
}

/// Whether accruing fees on `reserve` over `elapsed` seconds onto `fees`
/// leaves the machine integers.
pub open spec fn accrual_overflows(reserve: int, fees: int, elapsed: int) -> bool {
    !fits_i128(reserve * FEE_ACCRUAL_BP) || !fits_i128(reserve * FEE_ACCRUAL_BP * elapsed)
        || !fits_i128(fees + fee_accrual(reserve, elapsed))
}

/// The input left after the swap fee.
pub open spec fn after_fee(amount_in: int) -> int {
    (amount_in * (10000 - SWAP_FEE_BP)) / 10000
}

/// Output of a swap of `amount_in` against reserves `r0`, `r1`.
pub open spec fn swap_output(amount_in: int, r0: int, r1: int) -> int {
    (r1 * after_fee(amount_in)) / (r0 + after_fee(amount_in))
}

/// The pool's observable state.
pub struct LiquidityPoolView {
    pub admin: Option<u64>,
    pub token_0: Option<u64>,
    pub token_1: Option<u64>,
    pub reserve_0: int,
    pub reserve_1: int,
    pub lp_supply: int,
    /// LP shares of every account (0 for accounts that never added liquidity).
    pub lp_balances: Map<u64, int>,
    pub accrued_fees_0: int,
    pub accrued_fees_1: int,
    pub last_fee_accrual: Option<u64>,
}

/// The start of the current fee period.
pub open spec fn fee_period_start(v: LiquidityPoolView, now: u64) -> u64 {
    match v.last_fee_accrual {
        Some(t) => t,
        None => now,
    }
}

/// The pool after fees were accrued at `now`.
pub open spec fn after_fee_accrual(v: LiquidityPoolView, now: u64) -> LiquidityPoolView {
    let elapsed = now - fee_period_start(v, now);
    LiquidityPoolView {
        accrued_fees_0: v.accrued_fees_0 + fee_accrual(v.reserve_0, elapsed),
        accrued_fees_1: v.accrued_fees_1 + fee_accrual(v.reserve_1, elapsed),
        last_fee_accrual: Some(now),
        ..v
    }
}

/// Whether accruing fees at `now` traps.
pub open spec fn fee_accrual_traps(v: LiquidityPoolView, now: u64) -> bool {
    let start = fee_period_start(v, now);
    now < start || accrual_overflows(v.reserve_0, v.accrued_fees_0, now - start)
        || accrual_overflows(v.reserve_1, v.accrued_fees_1, now - start)
}

/// The pool after `user` added `a0`, `a1` for `minted` shares (before fees).
pub open spec fn after_add(
    v: LiquidityPoolView,
    user: u64,
    a0: int,
    a1: int,
    minted: int,
) -> LiquidityPoolView {
    LiquidityPoolView {
        reserve_0: v.reserve_0 + a0,
        reserve_1: v.reserve_1 + a1,
        lp_supply: v.lp_supply + minted,
        lp_balances: v.lp_balances.insert(user, v.lp_balances[user] + minted),
        ..v
    }
}

/// The pool after `user` burned `shares` for `out0`, `out1`.
pub open spec fn after_remove(
    v: LiquidityPoolView,
    user: u64,
    shares: int,
    out0: int,
    out1: int,
) -> LiquidityPoolView {
    LiquidityPoolView {
        reserve_0: v.reserve_0 - out0,
        reserve_1: v.reserve_1 - out1,
        lp_supply: v.lp_supply - shares,
        lp_balances: v.lp_balances.insert(user, v.lp_balances[user] - shares),
        ..v
    }
}

/// The pool's invariant in terms of its observable state; every amount lies
/// within `i128`.
pub open spec fn pool_consistent(v: LiquidityPoolView) -> bool {
    &&& v.reserve_0 >= 0
    &&& v.reserve_1 >= 0
    &&& v.lp_supply >= 0
    &&& v.accrued_fees_0 >= 0
    &&& v.accrued_fees_1 >= 0
    &&& v.reserve_0 <= i128::MAX && v.reserve_1 <= i128::MAX && v.lp_supply <= i128::MAX
    &&& v.accrued_fees_0 <= i128::MAX && v.accrued_fees_1 <= i128::MAX
    &&& (v.token_0 is None || v.token_1 is None) ==> v.lp_supply == 0
    &&& forall|u: u64| 0 <= #[trigger] v.lp_balances[u] <= v.lp_supply
    &&& forall|u: u64| #[trigger] v.lp_balances.contains_key(u)
}

/// The liquidity pool contract's state.
pub struct LiquidityPoolContract {
    admin: Option<u64>,
    token_0: Option<u64>,
    token_1: Option<u64>,
    reserve_0: i128,
    reserve_1: i128,
    lp_supply: i128,
    lp_balances: Ledger,
    accrued_fees_0: i128,
    accrued_fees_1: i128,
    last_fee_accrual: Option<u64>,
}

impl View for LiquidityPoolContract {
    type V = LiquidityPoolView;

    closed spec fn view(&self) -> LiquidityPoolView {
        LiquidityPoolView {
            admin: self.admin,
            token_0: self.token_0,
            token_1: self.token_1,
            reserve_0: self.reserve_0 as int,
            reserve_1: self.reserve_1 as int,
            lp_supply: self.lp_supply as int,
            lp_balances: Map::new(|u: u64| true, |u: u64| self.lp_balances.balance(u)),
            accrued_fees_0: self.accrued_fees_0 as int,
            accrued_fees_1: self.accrued_fees_1 as int,
            last_fee_accrual: self.last_fee_accrual,
        }
    }
}

impl LiquidityPoolContract {
    pub closed spec fn wf(&self) -> bool {
        &&& self.lp_balances.wf()
        &&& self.lp_supply == self.lp_balances.total()
        &&& self.reserve_0 >= 0
        &&& self.reserve_1 >= 0
        &&& self.lp_supply >= 0
        &&& self.accrued_fees_0 >= 0
        &&& self.accrued_fees_1 >= 0
        &&& (self.token_0 is None || self.token_1 is None) ==> self.lp_supply == 0
    }

    /// A well-formed pool is consistent.
    proof fn lemma_consistent(&self)
        requires
            self.wf(),
        ensures
            pool_consistent(self@),
    {
        assert forall|u: u64| 0 <= #[trigger] self@.lp_balances[u] <= self@.lp_supply by {
            self.lp_balances.lemma_balance_bounded(u);
        }
    }

    proof fn lemma_shares_add_up(&self)
        requires
            self.wf(),
        ensures
            is_sum_of_balances(self@.lp_supply, self@.lp_balances),
    {
        self.lp_balances.lemma_total_is_sum(self@.lp_balances);
    }

    pub fn new() -> (p: LiquidityPoolContract)
        ensures
            p.wf(),
            p@.admin is None && p@.token_0 is None && p@.token_1 is None,
            p@.reserve_0 == 0 && p@.reserve_1 == 0 && p@.lp_supply == 0,
            p@.accrued_fees_0 == 0 && p@.accrued_fees_1 == 0 && p@.last_fee_accrual is None,
            forall|u: u64| #[trigger] p@.lp_balances[u] == 0,
    {
        LiquidityPoolContract {
            admin: None,
            token_0: None,
            token_1: None,
            reserve_0: 0,
            reserve_1: 0,
            lp_supply: 0,
            lp_balances: Ledger::new(),
            accrued_fees_0: 0,
            accrued_fees_1: 0,
            last_fee_accrual: None,
        }
    }

    /// Integer square root: the largest `r` with `r * r <= n`, by Newton's
    /// iteration.
    pub fn isqrt(n: u128) -> (r: u128)
        ensures
            is_floor_sqrt(n as int, r as int),
    {
        if n == 0 {
            assert(is_floor_sqrt(0, 0)) by (nonlinear_arith);
            return 0;
        }
        let mut x = n;
        assert(n / n == 1) by (nonlinear_arith) requires n > 0;
        // `(x + 1) / 2`, written so that it cannot overflow.
        let mut y = x / 2 + x % 2;
        assert(y == (n + n / n) / 2) by (nonlinear_arith) requires y == n / 2 + n % 2, n / n == 1, n > 0;
        assert(n < (n + 1) * (n + 1)) by (nonlinear_arith) requires n > 0;
        proof { lemma_newton_step_stays_above(n as int, x as int, (n / x) as int, y as int); }
        while y < x
            invariant
                0 < x <= n,
                x == n || x <= (n + 1) / 2,
                y <= (n + 1) / 2,
                n < (x + 1) * (x + 1),
                n < (y + 1) * (y + 1),
                y == (x + n / x) / 2,
            decreases x,
        {
            x = y;
            assert(x >= 1) by (nonlinear_arith) requires n < (x + 1) * (x + 1), n >= 1, x >= 0;
            proof { lemma_newton_no_overflow(n as int, x as int); }
            let q = n / x;
            assert(x + q <= u128::MAX) by (nonlinear_arith)
                requires x >= 1, x + q <= n + 3, x >= 2 ==> x + q <= n, n < (x + 1) * (x + 1), q == n / x;
            y = (x + q) / 2;
            proof { lemma_newton_step_stays_above(n as int, x as int, q as int, y as int); }
        }
        assert(x * x <= n) by (nonlinear_arith)
            requires x > 0, y >= x, y == (x + n / x) / 2, n >= 0;
        x
    }

    /// Records the admin and the two pooled tokens. Fails when already
    /// initialized.
    pub fn initialize(&mut self, admin: u64, token_0: u64, token_1: u64) -> (r: Result<(), AmmError>)
        requires
            old(self).wf(),
        ensures
            final(self).wf(),
            old(self)@.admin is Some ==> r == Err::<(), AmmError>(AmmError::AlreadyInitialized)
                && final(self)@ == old(self)@,
            old(self)@.admin is None ==> r is Ok && final(self)@ == (LiquidityPoolView {
                admin: Some(admin),
                token_0: Some(token_0),
                token_1: Some(token_1),
                ..old(self)@
            }),
    {
        if self.admin.is_some() {
            return Err(AmmError::AlreadyInitialized);
        }
        self.admin = Some(admin);
        self.token_0 = Some(token_0);
        self.token_1 = Some(token_1);
        proof {
            assert(self@.lp_balances =~= old(self)@.lp_balances);
        }
        Ok(())
    }

    /// LP shares held by `user`.
    pub fn lp_balance(&self, user: u64) -> (b: i128)
        requires
            self.wf(),
        ensures
            b == self@.lp_balances[user],
    {
        self.lp_balances.get(user)
    }

    /// The two reserves.
    pub fn get_reserves(&self) -> (r: (i128, i128))
        ensures
            r.0 == self@.reserve_0 && r.1 == self@.reserve_1,
    {
        (self.reserve_0, self.reserve_1)
    }

    /// The fees accrued on each reserve so far.
    pub fn get_accrued_fees(&self) -> (r: (i128, i128))
        ensures
            r.0 == self@.accrued_fees_0 && r.1 == self@.accrued_fees_1,
    {
        (self.accrued_fees_0, self.accrued_fees_1)
    }

    /// Accrues the simulated fee on both reserves for the time elapsed since
    /// the last accrual (none on the first call) and records `now`.
    fn accrue_protocol_fees(&mut self, now: u64) -> (r: Result<(), AmmError>)
        requires
            old(self).wf(),
        ensures
            final(self).wf(),
            fee_accrual_traps(old(self)@, now) ==> r == Err::<(), AmmError>(AmmError::Overflow)
                && final(self)@ == old(self)@,
            !fee_accrual_traps(old(self)@, now) ==> r is Ok && final(self)@ == after_fee_accrual(
                old(self)@,
                now,
            ),
    {
        let last_accrual = match self.last_fee_accrual {
            Some(t) => t,
            None => now,
        };
        if now < last_accrual {
            return Err(AmmError::Overflow);
        }
        let elapsed = now - last_accrual;
        let acc_0 = match Self::accrued_on(self.reserve_0, elapsed) {
            Some(v) => v,
            None => return Err(AmmError::Overflow),
        };
        let acc_1 = match Self::accrued_on(self.reserve_1, elapsed) {
            Some(v) => v,
            None => return Err(AmmError::Overflow),
        };
        let fees_0 = match self.accrued_fees_0.checked_add(acc_0) {
            Some(v) => v,
            None => return Err(AmmError::Overflow),
        };
        let fees_1 = match self.accrued_fees_1.checked_add(acc_1) {
            Some(v) => v,
            None => return Err(AmmError::Overflow),
        };
        self.accrued_fees_0 = fees_0;
        self.accrued_fees_1 = fees_1;
        self.last_fee_accrual = Some(now);
        proof {
            assert(self@.lp_balances =~= old(self)@.lp_balances);
        }
        Ok(())
    }

    /// The simulated fee on `reserve` over `elapsed` seconds, `None` when the
    /// computation leaves `i128`.
    fn accrued_on(reserve: i128, elapsed: u64) -> (r: Option<i128>)
        requires
            reserve >= 0,
        ensures
            r is None <==> !fits_i128(reserve * FEE_ACCRUAL_BP) || !fits_i128(
                reserve * FEE_ACCRUAL_BP * elapsed,
            ),
            r matches Some(v) ==> v == fee_accrual(reserve as int, elapsed as int) && v >= 0,
    {
        let scaled = match reserve.checked_mul(FEE_ACCRUAL_BP) {
            Some(v) => v,
            None => return None,
        };
        let product = match scaled.checked_mul(elapsed as i128) {
            Some(v) => v,
            None => return None,
        };
        assert(product >= 0) by (nonlinear_arith)
            requires product == scaled * elapsed, scaled == reserve * 5, reserve >= 0, elapsed >= 0;
        Some(product / (SECONDS_PER_YEAR * 10000))
    }

    /// Adds `amount_0` and `amount_1` from `invoker` and credits LP shares.
    /// Fails when fewer than `min_lp` shares would be minted. Returns the
    /// shares minted and the two transfers into the pool.
    pub fn add_liquidity(&mut self, amount_0: i128, amount_1: i128, min_lp: i128, invoker: u64, now: u64)
        -> (r: Result<(i128, TokenTransfer, TokenTransfer), AmmError>)
        requires
            old(self).wf(),
        ensures
            final(self).wf(),
            r is Err ==> final(self)@ == old(self)@,
            ({
                let v = old(self)@;
                let minted = minted_lp(
                    amount_0 as int,
                    amount_1 as int,
                    v.reserve_0,
                    v.reserve_1,
                    v.lp_supply,
                );
                let added = after_add(v, invoker, amount_0 as int, amount_1 as int, minted);
                if amount_0 <= 0 || amount_1 <= 0 {
                    r == Err::<(i128, TokenTransfer, TokenTransfer), AmmError>(AmmError::InvalidAmount)
                } else if v.token_0 is None || v.token_1 is None {
                    r == Err::<(i128, TokenTransfer, TokenTransfer), AmmError>(AmmError::NotInitialized)
                } else if mint_overflows(
                    amount_0 as int,
                    amount_1 as int,
                    v.reserve_0,
                    v.reserve_1,
                    v.lp_supply,
                ) {
                    r == Err::<(i128, TokenTransfer, TokenTransfer), AmmError>(AmmError::Overflow)
                } else if minted < min_lp {
                    r == Err::<(i128, TokenTransfer, TokenTransfer), AmmError>(
                        AmmError::SlippageExceeded,
                    )
                } else if !fits_i128(v.reserve_0 + amount_0) || !fits_i128(v.reserve_1 + amount_1)
                    || !fits_i128(v.lp_supply + minted) || fee_accrual_traps(added, now) {
                    r == Err::<(i128, TokenTransfer, TokenTransfer), AmmError>(AmmError::Overflow)
                } else {
                    &&& minted >= 0
                    &&& r == Ok::<(i128, TokenTransfer, TokenTransfer), AmmError>(
                        (
                            minted as i128,
                            TokenTransfer::In {
                                token: v.token_0.unwrap(),
                                from: invoker,
                                amount: amount_0,
                            },
                            TokenTransfer::In {
                                token: v.token_1.unwrap(),
                                from: invoker,
                                amount: amount_1,
                            },
                        ),
                    )
                    &&& final(self)@ == after_fee_accrual(added, now)
                }
            }),
            r matches Ok(t) ==> ({
                let v = old(self)@;
                v.lp_supply > 0 ==> {
                    &&& t.0 * (v.reserve_0 + 1) <= amount_0 * v.lp_supply
                    &&& t.0 * (v.reserve_1 + 1) <= amount_1 * v.lp_supply
                    &&& (amount_0 * v.lp_supply < (t.0 + 1) * (v.reserve_0 + 1) || amount_1
                        * v.lp_supply < (t.0 + 1) * (v.reserve_1 + 1))
                }
            }),
    {
        proof {
            let v = old(self)@;
            if v.lp_supply > 0 {
                law_mint_is_smaller_proportional_share(
                    amount_0 as int,
                    amount_1 as int,
                    v.reserve_0,
                    v.reserve_1,
                    v.lp_supply,
                );
            }
        }
        if amount_0 <= 0 || amount_1 <= 0 {
            return Err(AmmError::InvalidAmount);
        }
        let token_0 = match self.token_0 {
            Some(t) => t,
            None => return Err(AmmError::NotInitialized),
        };
        let token_1 = match self.token_1 {
            Some(t) => t,
            None => return Err(AmmError::NotInitialized),
        };
        proof { self.lemma_consistent(); }
        let reserve_0 = self.reserve_0;
        let reserve_1 = self.reserve_1;
        let lp_supply = self.lp_supply;
        let lp_tokens: i128 = if lp_supply == 0 {
            let product = match (amount_0 as u128).checked_mul(amount_1 as u128) {
                Some(v) => v,
                None => return Err(AmmError::Overflow),
            };
            let root = Self::isqrt(product);
            proof {
                lemma_floor_sqrt_unique(product as int, root as int);
                assert(root < 0x1_0000_0000_0000_0000) by (nonlinear_arith)
                    requires root * root <= product, product <= u128::MAX, root >= 0;
            }
            root as i128
        } else {
            let scaled_0 = match amount_0.checked_mul(lp_supply) {
                Some(v) => v,
                None => return Err(AmmError::Overflow),
            };
            let div_0 = match reserve_0.checked_add(1) {
                Some(v) => v,
                None => return Err(AmmError::Overflow),
            };
            let scaled_1 = match amount_1.checked_mul(lp_supply) {
                Some(v) => v,
                None => return Err(AmmError::Overflow),
            };
            let div_1 = match reserve_1.checked_add(1) {
                Some(v) => v,
                None => return Err(AmmError::Overflow),
            };
            assert(scaled_0 >= 0 && scaled_1 >= 0) by (nonlinear_arith)
                requires scaled_0 == amount_0 * lp_supply, scaled_1 == amount_1 * lp_supply,
                    amount_0 > 0, amount_1 > 0, lp_supply >= 0;
            let lp_0 = scaled_0 / div_0;
            let lp_1 = scaled_1 / div_1;
            if lp_0 < lp_1 {
                lp_0
            } else {
                lp_1
            }
        };
        if lp_tokens < min_lp {
            return Err(AmmError::SlippageExceeded);
        }
        let new_reserve_0 = match reserve_0.checked_add(amount_0) {
            Some(v) => v,
            None => return Err(AmmError::Overflow),
        };
        let new_reserve_1 = match reserve_1.checked_add(amount_1) {
            Some(v) => v,
            None => return Err(AmmError::Overflow),
        };
        let new_supply = match lp_supply.checked_add(lp_tokens) {
            Some(v) => v,
            None => return Err(AmmError::Overflow),
        };
        let ghost added = after_add(self@, invoker, amount_0 as int, amount_1 as int, lp_tokens as int);
        // Check the fee accrual on the updated reserves before changing anything.
        let last_accrual = match self.last_fee_accrual {
            Some(t) => t,
            None => now,
        };
        if now < last_accrual {
            return Err(AmmError::Overflow);
        }
        let elapsed = now - last_accrual;
        let acc_0 = match Self::accrued_on(new_reserve_0, elapsed) {
            Some(v) => v,
            None => return Err(AmmError::Overflow),
        };
        let acc_1 = match Self::accrued_on(new_reserve_1, elapsed) {
            Some(v) => v,
            None => return Err(AmmError::Overflow),
        };
        if self.accrued_fees_0.checked_add(acc_0).is_none() || self.accrued_fees_1.checked_add(
            acc_1,
        ).is_none() {
            return Err(AmmError::Overflow);
        }
        let user_lp = self.lp_balances.get(invoker);
        proof { self.lp_balances.lemma_balance_bounded(invoker); }
        self.reserve_0 = new_reserve_0;
        self.reserve_1 = new_reserve_1;
        self.lp_supply = new_supply;
        self.lp_balances.set(invoker, user_lp + lp_tokens);
        assert(self@.lp_balances =~= added.lp_balances);
        assert(self@ =~= added);
        let accrued = self.accrue_protocol_fees(now);
        assert(accrued is Ok);
        Ok(
            (
                lp_tokens,
                TokenTransfer::In { token: token_0, from: invoker, amount: amount_0 },
                TokenTransfer::In { token: token_1, from: invoker, amount: amount_1 },
            ),
        )
    }

    /// Burns `lp_amount` of the invoker's shares for the proportional part of
    /// both reserves. Fails when either output is below its minimum. Returns
    /// the two outputs and the two transfers out of the pool.
    pub fn remove_liquidity(&mut self, lp_amount: i128, min_0: i128, min_1: i128, invoker: u64)
        -> (r: Result<((i128, i128), TokenTransfer, TokenTransfer), AmmError>)
        requires
            old(self).wf(),
        ensures
            final(self).wf(),
            r is Err ==> final(self)@ == old(self)@,
            ({
                let v = old(self)@;
                let out_0 = (lp_amount * v.reserve_0) / v.lp_supply;
                let out_1 = (lp_amount * v.reserve_1) / v.lp_supply;
                if lp_amount <= 0 {
                    r == Err::<((i128, i128), TokenTransfer, TokenTransfer), AmmError>(
                        AmmError::InvalidAmount,
                    )
                } else if v.lp_balances[invoker] < lp_amount {
                    r == Err::<((i128, i128), TokenTransfer, TokenTransfer), AmmError>(
                        AmmError::InsufficientBalance,
                    )
                } else if !fits_i128(lp_amount * v.reserve_0) || !fits_i128(lp_amount * v.reserve_1) {
                    r == Err::<((i128, i128), TokenTransfer, TokenTransfer), AmmError>(
                        AmmError::Overflow,
                    )
                } else if out_0 < min_0 || out_1 < min_1 {
                    r == Err::<((i128, i128), TokenTransfer, TokenTransfer), AmmError>(
                        AmmError::SlippageExceeded,
                    )
                } else if v.token_0 is None || v.token_1 is None {
                    r == Err::<((i128, i128), TokenTransfer, TokenTransfer), AmmError>(
                        AmmError::NotInitialized,
                    )
                } else {
                    &&& 0 <= out_0 <= v.reserve_0
                    &&& 0 <= out_1 <= v.reserve_1
                    &&& r == Ok::<((i128, i128), TokenTransfer, TokenTransfer), AmmError>(
                        (
                            (out_0 as i128, out_1 as i128),
                            TokenTransfer::Out {
                                token: v.token_0.unwrap(),
                                to: invoker,
                                amount: out_0 as i128,
                            },
                            TokenTransfer::Out {
                                token: v.token_1.unwrap(),
                                to: invoker,
                                amount: out_1 as i128,
                            },
                        ),
                    )
                    &&& final(self)@ == after_remove(v, invoker, lp_amount as int, out_0, out_1)
                }
            }),
    {
        if lp_amount <= 0 {
            return Err(AmmError::InvalidAmount);
        }
        proof { self.lemma_consistent(); }
        let user_lp = self.lp_balances.get(invoker);
        if user_lp < lp_amount {
            return Err(AmmError::InsufficientBalance);
        }
        let reserve_0 = self.reserve_0;
        let reserve_1 = self.reserve_1;
        let lp_supply = self.lp_supply;
        let scaled_0 = match lp_amount.checked_mul(reserve_0) {
            Some(v) => v,
            None => return Err(AmmError::Overflow),
        };
        let scaled_1 = match lp_amount.checked_mul(reserve_1) {
            Some(v) => v,
            None => return Err(AmmError::Overflow),
        };
        assert(0 <= scaled_0 / lp_supply <= reserve_0) by (nonlinear_arith)
            requires scaled_0 == lp_amount * reserve_0, 0 < lp_amount <= lp_supply, reserve_0 >= 0;
        assert(0 <= scaled_1 / lp_supply <= reserve_1) by (nonlinear_arith)
            requires scaled_1 == lp_amount * reserve_1, 0 < lp_amount <= lp_supply, reserve_1 >= 0;
        let out_0 = scaled_0 / lp_supply;
        let out_1 = scaled_1 / lp_supply;
        if out_0 < min_0 || out_1 < min_1 {
            return Err(AmmError::SlippageExceeded);
        }
        let token_0 = match self.token_0 {
            Some(t) => t,
            None => return Err(AmmError::NotInitialized),
        };
        let token_1 = match self.token_1 {
            Some(t) => t,
            None => return Err(AmmError::NotInitialized),
        };
        let ghost v = self@;
        self.reserve_0 = reserve_0 - out_0;
        self.reserve_1 = reserve_1 - out_1;
        self.lp_supply = lp_supply - lp_amount;
        self.lp_balances.set(invoker, user_lp - lp_amount);
        assert(self@.lp_balances =~= v.lp_balances.insert(invoker, v.lp_balances[invoker] - lp_amount));
        assert(self@ =~= after_remove(v, invoker, lp_amount as int, out_0 as int, out_1 as int));
        Ok(
            (
                (out_0, out_1),
                TokenTransfer::Out { token: token_0, to: invoker, amount: out_0 },
                TokenTransfer::Out { token: token_1, to: invoker, amount: out_1 },
            ),
        )
    }

    /// Swaps `amount_in` of token 0 from `invoker` for token 1 at the
    /// constant-product price after the fee. Fails when the output is below
    /// `min_out`. Returns the output and the two transfers.
    pub fn swap_exact_in(&mut self, amount_in: i128, min_out: i128, invoker: u64) -> (r: Result<
        (i128, TokenTransfer, TokenTransfer),
        AmmError,
    >)
        requires
            old(self).wf(),
        ensures
            final(self).wf(),
            r is Err ==> final(self)@ == old(self)@,
            ({
                let v = old(self)@;
                let f = after_fee(amount_in as int);
                let out = swap_output(amount_in as int, v.reserve_0, v.reserve_1);
                if amount_in <= 0 {
                    r == Err::<(i128, TokenTransfer, TokenTransfer), AmmError>(AmmError::InvalidAmount)
                } else if v.token_0 is None || v.token_1 is None {
                    r == Err::<(i128, TokenTransfer, TokenTransfer), AmmError>(AmmError::NotInitialized)
                } else if !fits_i128(amount_in * (10000 - SWAP_FEE_BP)) || !fits_i128(v.reserve_1 * f)
                    || !fits_i128(v.reserve_0 + f) {
                    r == Err::<(i128, TokenTransfer, TokenTransfer), AmmError>(AmmError::Overflow)
                } else if v.reserve_0 + f == 0 {
                    r == Err::<(i128, TokenTransfer, TokenTransfer), AmmError>(AmmError::DivisionByZero)
                } else if out < min_out {
                    r == Err::<(i128, TokenTransfer, TokenTransfer), AmmError>(
                        AmmError::SlippageExceeded,
                    )
                } else if !fits_i128(v.reserve_0 + amount_in) {
                    r == Err::<(i128, TokenTransfer, TokenTransfer), AmmError>(AmmError::Overflow)
                } else {
                    &&& 0 <= out <= v.reserve_1
                    &&& r == Ok::<(i128, TokenTransfer, TokenTransfer), AmmError>(
                        (
                            out as i128,
                            TokenTransfer::In {
                                token: v.token_0.unwrap(),
                                from: invoker,
                                amount: amount_in,
                            },
                            TokenTransfer::Out {
                                token: v.token_1.unwrap(),
                                to: invoker,
                                amount: out as i128,
                            },
                        ),
                    )
                    &&& final(self)@ == (LiquidityPoolView {
                        reserve_0: v.reserve_0 + amount_in,
                        reserve_1: v.reserve_1 - out,
                        ..v
                    })
                }
            }),
    {
        if amount_in <= 0 {
            return Err(AmmError::InvalidAmount);
        }
        let token_0 = match self.token_0 {
            Some(t) => t,
            None => return Err(AmmError::NotInitialized),
        };
        let token_1 = match self.token_1 {
            Some(t) => t,
            None => return Err(AmmError::NotInitialized),
        };
        let reserve_0 = self.reserve_0;
        let reserve_1 = self.reserve_1;
        let scaled_in = match amount_in.checked_mul(10000 - SWAP_FEE_BP) {
            Some(v) => v,
            None => return Err(AmmError::Overflow),
        };
        let amount_in_after_fee = scaled_in / 10000;
        assert(0 <= amount_in_after_fee <= amount_in);
        let scaled_out = match reserve_1.checked_mul(amount_in_after_fee) {
            Some(v) => v,
            None => return Err(AmmError::Overflow),
        };
        let divisor = match reserve_0.checked_add(amount_in_after_fee) {
            Some(v) => v,
            None => return Err(AmmError::Overflow),
        };
        if divisor == 0 {
            return Err(AmmError::DivisionByZero);
        }
        assert(0 <= scaled_out / divisor <= reserve_1) by (nonlinear_arith)
            requires scaled_out == reserve_1 * amount_in_after_fee, divisor == reserve_0
                + amount_in_after_fee, divisor > 0, reserve_0 >= 0, reserve_1 >= 0,
                amount_in_after_fee >= 0;
        let amount_out = scaled_out / divisor;
        if amount_out < min_out {
            return Err(AmmError::SlippageExceeded);
        }
        let new_reserve_0 = match reserve_0.checked_add(amount_in) {
            Some(v) => v,
            None => return Err(AmmError::Overflow),
        };
        let ghost v = self@;
        self.reserve_0 = new_reserve_0;
        self.reserve_1 = reserve_1 - amount_out;
        assert(self@.lp_balances =~= v.lp_balances);
        Ok(
            (
                amount_out,
                TokenTransfer::In { token: token_0, from: invoker, amount: amount_in },
                TokenTransfer::Out { token: token_1, to: invoker, amount: amount_out },
            ),
        )
    }
}

/// A swap never lowers the constant product of the reserves: the fee stays
/// in the pool.
pub proof fn law_swap_keeps_product(r0: int, r1: int, amount_in: int)
    requires
        r0 >= 0,
        r1 >= 0,
        amount_in > 0,
        r0 + after_fee(amount_in) > 0,
    ensures
        (r0 + amount_in) * (r1 - swap_output(amount_in, r0, r1)) >= r0 * r1,
{
    let f = after_fee(amount_in);
    let out = swap_output(amount_in, r0, r1);
    assert(0 <= f <= amount_in);
    assert(out * (r0 + f) <= r1 * f) by (nonlinear_arith)
        requires out == (r1 * f) / (r0 + f), r0 + f > 0, r1 >= 0, f >= 0;
    assert(0 <= out <= r1) by (nonlinear_arith)
        requires out == (r1 * f) / (r0 + f), r0 + f > 0, r1 >= 0, f >= 0, r0 >= 0;
    assert((r0 + amount_in) * (r1 - out) >= (r0 + f) * (r1 - out)) by (nonlinear_arith)
        requires amount_in >= f, r1 - out >= 0;
    assert((r0 + f) * (r1 - out) >= r0 * r1) by (nonlinear_arith)
        requires out * (r0 + f) <= r1 * f;
}

/// A swap into a pool with two non-empty reserves never empties the output
/// reserve.
pub proof fn law_swap_never_drains(r0: int, r1: int, amount_in: int)
    requires
        r0 > 0,
        r1 > 0,
        amount_in > 0,
    ensures
        0 <= swap_output(amount_in, r0, r1) < r1,
{
    let f = after_fee(amount_in);
    assert(0 <= (r1 * f) / (r0 + f) < r1) by (nonlinear_arith) requires r0 > 0, r1 > 0, f >= 0;
}

/// Burning every outstanding share pays out both reserves in full.
pub proof fn law_remove_all_drains(r0: int, r1: int, supply: int)
    requires
        r0 >= 0,
        r1 >= 0,
        supply > 0,
    ensures
        (supply * r0) / supply == r0,
        (supply * r1) / supply == r1,
{
    assert((supply * r0) / supply == r0) by (nonlinear_arith) requires supply > 0;
    assert((supply * r1) / supply == r1) by (nonlinear_arith) requires supply > 0;
}

/// The LP supply is always the sum of all holders' shares.
pub proof fn law_shares_add_up(p: LiquidityPoolContract)
    requires
        p.wf(),
    ensures
        is_sum_of_balances(p@.lp_supply, p@.lp_balances),
{
    p.lemma_shares_add_up();
}

/// Every operation keeps the pool consistent: non-negative reserves, fees
/// and shares, every holder's shares within the supply, and no shares before
/// the tokens are known.
pub proof fn law_pool_consistent(p: LiquidityPoolContract)
    requires
        p.wf(),
    ensures
        pool_consistent(p@),
{
    p.lemma_consistent();
}

/// A deposit into a pool with shares outstanding gets the smaller of its
/// two proportional shares: no more than either token's contribution
/// `amount * supply / (reserve + 1)` would earn on its own, and the largest
/// number of shares with that property.
pub proof fn law_mint_is_smaller_proportional_share(a0: int, a1: int, r0: int, r1: int, supply: int)
    requires
        r0 >= 0,
        r1 >= 0,
        supply > 0,
    ensures
        ({
            let m = minted_lp(a0, a1, r0, r1, supply);
            &&& m * (r0 + 1) <= a0 * supply
            &&& m * (r1 + 1) <= a1 * supply
            &&& (a0 * supply < (m + 1) * (r0 + 1) || a1 * supply < (m + 1) * (r1 + 1))
        }),
{
    let x0 = a0 * supply;
    let x1 = a1 * supply;
    let q0 = x0 / (r0 + 1);
    let q1 = x1 / (r1 + 1);
    assert(q0 * (r0 + 1) <= x0 && x0 < (q0 + 1) * (r0 + 1)) by (nonlinear_arith)
        requires r0 + 1 > 0, q0 == x0 / (r0 + 1);
    assert(q1 * (r1 + 1) <= x1 && x1 < (q1 + 1) * (r1 + 1)) by (nonlinear_arith)
        requires r1 + 1 > 0, q1 == x1 / (r1 + 1);
    let m = minted_lp(a0, a1, r0, r1, supply);
    if q0 <= q1 {
        assert(m == q0);
        assert(m * (r1 + 1) <= q1 * (r1 + 1)) by (nonlinear_arith) requires m <= q1, r1 + 1 > 0;
    } else {
        assert(m == q1);
        assert(m * (r0 + 1) <= q0 * (r0 + 1)) by (nonlinear_arith) requires m <= q0, r0 + 1 > 0;
    }
}

} // verus!
