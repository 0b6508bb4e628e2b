//! A yield vault spreading deposits over several yield providers: each
//! deposit goes to the active provider of highest priority, withdrawals
//! drain the depositor's allocations provider by provider, and the yield of
//! each provider can be harvested. Deposits and withdrawals carry a request
//! id that can be used only once.
use std::collections::HashMap;
use vstd::prelude::*;

use crate::ledger::{fits_i128, is_sum_of_balances, Ledger};
use crate::transfer::TokenTransfer;

verus! {

broadcast use {vstd::std_specs::hash::group_hash_axioms, vstd::array::group_array_axioms};

#[derive(Clone, Copy, Debug, PartialEq, Eq, Structural)]
pub enum YieldError {
    AlreadyInitialized,
    NotInitialized,
    /// The request id was already used.
    AlreadyExecuted,
    InvalidAmount,
    ProviderNotFound,
    NoProvidersAvailable,
    InsufficientBalance,
    /// A total leaves `i128` or the provider count leaves `u32`; the
    /// deployed contract aborts the invocation in that case.
    Overflow,
}

/// A registered yield provider and what the vault moved through it.
#[derive(Clone, Copy, Debug, PartialEq, Eq, Structural)]
pub struct YieldProvider {
    pub id: u32,
    pub name: u64,
    pub address: u64,
    /// Higher is preferred for deposits.
    pub priority: u32,
    pub total_deposited: i128,
    pub total_withdrawn: i128,
    pub total_yield_earned: i128,
    pub is_active: bool,
}

/// A call the host makes to a provider on behalf of the vault.
#[derive(Clone, Copy, Debug, PartialEq, Eq, Structural)]
pub enum ProviderCall {
    /// The vault deposits `amount` with the provider at `provider`.
    Deposit { provider: u64, amount: i128 },
    /// The provider at `provider` pays `amount` out to `to`.
    Withdraw { provider: u64, to: u64, amount: i128 },
}

/// Published when a provider's yield is harvested.
#[derive(Clone, Copy, Debug, PartialEq, Eq, Structural)]
pub struct YieldHarvestedEvent {
    pub provider_id: u32,
    pub yield_earned: i128,
}

/// What a successful deposit did: the amount credited, the provider chosen,
/// the transfer into the vault and the deposit with the provider.
#[derive(Clone, Copy, Debug, PartialEq, Eq, Structural)]
pub struct DepositReceipt {
    pub amount: i128,
    pub provider_id: u32,
    pub transfer: TokenTransfer,
    pub provider_deposit: ProviderCall,
}

pub open spec fn seq_sum(s: Seq<int>) -> int
    decreases s.len(),
{
    if s.len() == 0 {
        0
    } else {
        seq_sum(s.drop_last()) + s.last()
    }
}

proof fn lemma_seq_sum_update(s: Seq<int>, i: int, v: int)
    requires
        0 <= i < s.len(),
    ensures
        seq_sum(s.update(i, v)) == seq_sum(s) - s[i] + v,
    decreases s.len(),
{
    if i == s.len() - 1 {
        assert(s.update(i, v).drop_last() =~= s.drop_last());
    } else {
        assert(s.update(i, v).drop_last() =~= s.drop_last().update(i, v));
        lemma_seq_sum_update(s.drop_last(), i, v);
    }
}

proof fn lemma_seq_sum_take_step(s: Seq<int>, p: int)
    requires
        0 <= p < s.len(),
    ensures
        seq_sum(s.take(p + 1)) == seq_sum(s.take(p)) + s[p],
{
    assert(s.take(p + 1).drop_last() =~= s.take(p));
}

proof fn lemma_seq_sum_nonnegative(s: Seq<int>)
    requires
        forall|i: int| 0 <= i < s.len() ==> s[i] >= 0,
    ensures
        seq_sum(s) >= 0,
    decreases s.len(),
{
    if s.len() > 0 {
        lemma_seq_sum_nonnegative(s.drop_last());
    }
}

/// The allocations recorded in `v`, padded with zeros to `n` providers.
pub open spec fn padded(v: Seq<i128>, n: nat) -> Seq<int> {
    Seq::new(n, |p: int| if p < v.len() { v[p] as int } else { 0 })
}

proof fn lemma_padded_grow(v: Seq<i128>, n: nat)
    requires
        v.len() <= n,
    ensures
        padded(v, n + 1) =~= padded(v, n).push(0),
        seq_sum(padded(v, n + 1)) == seq_sum(padded(v, n)),
{
    assert(padded(v, n + 1).drop_last() =~= padded(v, n));
}

/// The provider chosen for deposits among the first `n`: the first active
/// provider of the highest priority, `None` when none of them is active.
pub open spec fn best_provider(providers: Seq<YieldProvider>, n: int) -> Option<int>
    decreases n,
{
    if n <= 0 {
        None
    } else {
        let p = providers[n - 1];
        match best_provider(providers, n - 1) {
            None => if p.is_active {
                Some(n - 1)
            } else {
                None
            },
            Some(b) => if p.is_active && p.priority > providers[b].priority {
                Some(n - 1)
            } else {
                Some(b)
            },
        }
    }
}

/// The vault's observable state.
pub struct VaultView {
    pub admin: Option<u64>,
    pub asset: Option<u64>,
    /// Provider `i` has id `i`.
    pub providers: Seq<YieldProvider>,
    /// Every account's balance (0 when it never deposited).
    pub balances: Map<u64, int>,
    /// Every account's allocation with each provider, by provider id.
    pub allocations: Map<u64, Seq<int>>,
    pub total_aum: int,
    pub total_yield_harvested: int,
    /// Request ids already used.
    pub claimed_requests: Set<[u8; 32]>,
}

/// The vault's invariant: provider `i` has id `i`; every account's
/// allocations are non-negative, one per provider, and add up to its
/// balance; balances lie within the total under management; the totals stay
/// within `i128`.
pub open spec fn vault_consistent(v: VaultView) -> bool {
    &&& v.providers.len() <= u32::MAX
    &&& forall|i: int| 0 <= i < v.providers.len() ==> (#[trigger] v.providers[i]).id == i
    &&& forall|u: u64| #[trigger] v.balances.contains_key(u) && v.allocations.contains_key(u)
    &&& forall|u: u64| 0 <= #[trigger] v.balances[u] <= v.total_aum
    &&& forall|u: u64| (#[trigger] v.allocations[u]).len() == v.providers.len()
    &&& forall|u: u64, p: int| 0 <= p < v.providers.len() ==> #[trigger] v.allocations[u][p] >= 0
    &&& forall|u: u64| seq_sum(#[trigger] v.allocations[u]) == v.balances[u]
    &&& v.total_yield_harvested >= 0
    &&& v.total_aum <= i128::MAX && v.total_yield_harvested <= i128::MAX
}

/// The vault after `user` deposited `amount` with provider `best` under
/// `request_id`.
pub open spec fn after_vault_deposit(
    v: VaultView,
    user: u64,
    amount: int,
    best: int,
    request_id: [u8; 32],
) -> VaultView {
    let p = v.providers[best];
    VaultView {
        providers: v.providers.update(
            best,
            YieldProvider { total_deposited: (p.total_deposited + amount) as i128, ..p },
        ),
        balances: v.balances.insert(user, v.balances[user] + amount),
        allocations: v.allocations.insert(
            user,
            v.allocations[user].update(best, v.allocations[user][best] + amount),
        ),
        total_aum: v.total_aum + amount,
        claimed_requests: v.claimed_requests.insert(request_id),
        ..v
    }
}

/// What a withdrawal of `amount` takes from the provider with id `p`, given
/// the depositor's allocations `s`: providers are drained in id order until
/// the amount is met.
pub open spec fn fifo_take(s: Seq<int>, amount: int, p: int) -> int {
    let still_needed = amount - seq_sum(s.take(p));
    let wanted = if still_needed > 0 { still_needed } else { 0 };
    if s[p] < wanted { s[p] } else { wanted }
}

/// Whether recording a withdrawal of `amount` leaves some provider's
/// withdrawn total outside `i128`.
pub open spec fn withdraw_overflows(ps: Seq<YieldProvider>, s: Seq<int>, amount: int) -> bool {
    exists|p: int|
        0 <= p < ps.len() && #[trigger] fifo_take(s, amount, p) > 0 && !fits_i128(
            ps[p].total_withdrawn + fifo_take(s, amount, p),
        )
}

/// The provider payouts, in id order, of a withdrawal of `amount` to `to`
/// over the first `n` providers.
pub open spec fn withdrawal_calls(
    ps: Seq<YieldProvider>,
    s: Seq<int>,
    amount: int,
    to: u64,
    n: int,
) -> Seq<ProviderCall>
    decreases n,
{
    if n <= 0 {
        Seq::empty()
    } else {
        let t = fifo_take(s, amount, n - 1);
        let earlier = withdrawal_calls(ps, s, amount, to, n - 1);
        if t > 0 {
            earlier.push(ProviderCall::Withdraw { provider: ps[n - 1].address, to, amount: t as i128 })
        } else {
            earlier
        }
    }
}

/// The vault after `user` withdrew `amount` under `request_id`.
pub open spec fn after_vault_withdraw(
    v: VaultView,
    user: u64,
    amount: int,
    request_id: [u8; 32],
) -> VaultView {
    let s = v.allocations[user];
    VaultView {
        providers: Seq::new(
            v.providers.len(),
            |p: int|
                YieldProvider {
                    total_withdrawn: (v.providers[p].total_withdrawn + fifo_take(s, amount, p)) as i128,
                    ..v.providers[p]
                },
        ),
        balances: v.balances.insert(user, v.balances[user] - amount),
        allocations: v.allocations.insert(
            user,
            Seq::new(v.providers.len(), |p: int| s[p] - fifo_take(s, amount, p)),
        ),
        total_aum: v.total_aum - amount,
        claimed_requests: v.claimed_requests.insert(request_id),
        ..v
    }
}

pub open spec fn int_seq(v: Seq<i128>) -> Seq<int> {
    Seq::new(v.len(), |i: int| v[i] as int)
}

/// The vault contract's state.
pub struct YieldVaultContract {
    admin: Option<u64>,
    asset: Option<u64>,
    providers: Vec<YieldProvider>,
    balances: Ledger,
    allocations: HashMap<u64, Vec<i128>>,
    total_aum: i128,
    total_yield_harvested: i128,
    claimed_requests: Vec<[u8; 32]>,
}

impl View for YieldVaultContract {
    type V = VaultView;

    closed spec fn view(&self) -> VaultView {
        VaultView {
            admin: self.admin,
            asset: self.asset,
            providers: self.providers@,
            balances: Map::new(|u: u64| true, |u: u64| self.balances.balance(u)),
            allocations: Map::new(|u: u64| true, |u: u64| self.allocations_of(u)),
            total_aum: self.total_aum as int,
            total_yield_harvested: self.total_yield_harvested as int,
            claimed_requests: Set::new(|r: [u8; 32]| self.claimed_requests@.contains(r)),
        }
    }
}

impl YieldVaultContract {
    closed spec fn raw_allocations(&self, u: u64) -> Seq<i128> {
        if self.allocations@.contains_key(u) {
            self.allocations@[u]@
        } else {
            Seq::empty()
        }
    }

    closed spec fn allocations_of(&self, u: u64) -> Seq<int> {
        padded(self.raw_allocations(u), self.providers@.len())
    }

    pub closed spec fn wf(&self) -> bool {
        &&& self.balances.wf()
        &&& self.balances.total() == self.total_aum
        &&& self.providers@.len() <= u32::MAX
        &&& forall|i: int| 0 <= i < self.providers@.len() ==> (#[trigger] self.providers@[i]).id == i
        &&& forall|u: u64| (#[trigger] self.raw_allocations(u)).len() <= self.providers@.len()
        &&& forall|u: u64, p: int|
            0 <= p < self.raw_allocations(u).len() ==> #[trigger] self.raw_allocations(u)[p] >= 0
        &&& forall|u: u64| seq_sum(#[trigger] self.allocations_of(u)) == self.balances.balance(u)
        &&& self.total_yield_harvested >= 0
    }

    /// A well-formed vault is consistent.
    proof fn lemma_consistent(&self)
        requires
            self.wf(),
        ensures
            vault_consistent(self@),
    {
        assert forall|u: u64| 0 <= #[trigger] self@.balances[u] <= self@.total_aum by {
            self.balances.lemma_balance_bounded(u);
        }
        assert forall|u: u64| seq_sum(#[trigger] self@.allocations[u]) == self@.balances[u] by {
            assert(self@.allocations[u] == self.allocations_of(u));
        }
        assert forall|u: u64, p: int| 0 <= p < self@.providers.len() implies #[trigger] self@.allocations[u][p] >= 0 by {
            assert(self@.allocations[u] == self.allocations_of(u));
        }
    }

    proof fn lemma_balances_add_up(&self)
        requires
            self.wf(),
        ensures
            is_sum_of_balances(self@.total_aum, self@.balances),
    {
        self.balances.lemma_total_is_sum(self@.balances);
    }

    pub fn new() -> (v: YieldVaultContract)
        ensures
            v.wf(),
            v@.admin is None && v@.asset is None,
            v@.providers == Seq::<YieldProvider>::empty(),
            forall|u: u64| #[trigger] v@.balances[u] == 0,
            v@.total_aum == 0 && v@.total_yield_harvested == 0,
            v@.claimed_requests == Set::<[u8; 32]>::empty(),
    {
        let v = YieldVaultContract {
            admin: None,
            asset: None,
            providers: Vec::new(),
            balances: Ledger::new(),
            allocations: HashMap::new(),
            total_aum: 0,
            total_yield_harvested: 0,
            claimed_requests: Vec::new(),
        };
        assert forall|u: u64| seq_sum(#[trigger] v.allocations_of(u)) == v.balances.balance(u) by {
            assert(v.allocations_of(u) =~= Seq::<int>::empty());
        }
        assert(v@.claimed_requests =~= Set::<[u8; 32]>::empty());
        v
    }

    fn same_request(a: &[u8; 32], b: &[u8; 32]) -> (r: bool)
        ensures
            r == (*a == *b),
    {
        let mut i: usize = 0;
        while i < 32
            invariant
                0 <= i <= 32,
                forall|j: int| 0 <= j < i ==> a[j] == b[j],
            decreases 32 - i,
        {
            if a[i] != b[i] {
                return false;
            }
            i = i + 1;
        }
        assert(*a =~= *b);
        true
    }

    /// Whether `request_id` was already used.
    fn is_claimed(&self, request_id: &[u8; 32]) -> (r: bool)
        ensures
            r == self@.claimed_requests.contains(*request_id),
    {
        let mut i: usize = 0;
        while i < self.claimed_requests.len()
            invariant
                0 <= i <= self.claimed_requests@.len(),
                forall|j: int| 0 <= j < i ==> self.claimed_requests@[j] != *request_id,
            decreases self.claimed_requests.len() - i,
        {
            if Self::same_request(&self.claimed_requests[i], request_id) {
                assert(self.claimed_requests@[i as int] == *request_id);
                return true;
            }
            i = i + 1;
        }
        false
    }

    /// Records the admin and the vault's asset. Fails when already
    /// initialized.
    pub fn initialize(&mut self, admin: u64, asset: u64) -> (r: Result<(), YieldError>)
        requires
            old(self).wf(),
        ensures
            final(self).wf(),
            old(self)@.admin is Some ==> r == Err::<(), YieldError>(YieldError::AlreadyInitialized)
                && final(self)@ == old(self)@,
            old(self)@.admin is None ==> r is Ok && final(self)@ == (VaultView {
                admin: Some(admin),
                asset: Some(asset),
                ..old(self)@
            }),
    {
        if self.admin.is_some() {
            return Err(YieldError::AlreadyInitialized);
        }
        self.admin = Some(admin);
        self.asset = Some(asset);
        proof { self.lemma_view_parts_unchanged(old(self)); }
        Ok(())
    }

    proof fn lemma_view_parts_unchanged(&self, other: &Self)
        requires
            self.balances == other.balances,
            self.allocations == other.allocations,
            self.providers@ == other.providers@,
            self.claimed_requests@ == other.claimed_requests@,
        ensures
            self@.balances == other@.balances,
            self@.allocations == other@.allocations,
            self@.claimed_requests == other@.claimed_requests,
            forall|u: u64| #[trigger] self.raw_allocations(u) == other.raw_allocations(u),
            forall|u: u64| #[trigger] self.allocations_of(u) == other.allocations_of(u),
    {
        assert(self@.balances =~= other@.balances);
        assert forall|u: u64| #[trigger] self.allocations_of(u) == other.allocations_of(u) by {
            assert(self.raw_allocations(u) == other.raw_allocations(u));
        }
        assert(self@.allocations =~= other@.allocations);
        assert(self@.claimed_requests =~= other@.claimed_requests);
    }

    /// Registers a provider at `address` with the next id, active and with
    /// nothing moved through it yet. Returns its id.
    pub fn register_provider(&mut self, name: u64, address: u64, priority: u32) -> (r: Result<
        u32,
        YieldError,
    >)
        requires
            old(self).wf(),
        ensures
            final(self).wf(),
            r is Err ==> final(self)@ == old(self)@,
            old(self)@.admin is None ==> r == Err::<u32, YieldError>(YieldError::NotInitialized),
            old(self)@.admin is Some && old(self)@.providers.len() == u32::MAX ==> r == Err::<
                u32,
                YieldError,
            >(YieldError::Overflow),
            old(self)@.admin is Some && old(self)@.providers.len() < u32::MAX ==> {
                let id = old(self)@.providers.len();
                &&& r == Ok::<u32, YieldError>(id as u32)
                &&& final(self)@ == (VaultView {
                    providers: old(self)@.providers.push(
                        YieldProvider {
                            id: id as u32,
                            name,
                            address,
                            priority,
                            total_deposited: 0,
                            total_withdrawn: 0,
                            total_yield_earned: 0,
                            is_active: true,
                        },
                    ),
                    allocations: Map::new(
                        |u: u64| true,
                        |u: u64| old(self)@.allocations[u].push(0),
                    ),
                    ..old(self)@
                })
            },
    {
        if self.admin.is_none() {
            return Err(YieldError::NotInitialized);
        }
        let count = self.providers.len();
        if count >= 4294967295usize {
            return Err(YieldError::Overflow);
        }
        let provider_id = count as u32;
        let ghost prior = *self;
        self.providers.push(
            YieldProvider {
                id: provider_id,
                name,
                address,
                priority,
                total_deposited: 0,
                total_withdrawn: 0,
                total_yield_earned: 0,
                is_active: true,
            },
        );
        proof {
            assert forall|u: u64| #[trigger] self.allocations_of(u) == prior.allocations_of(u).push(0) by {
                assert(self.raw_allocations(u) == prior.raw_allocations(u));
                lemma_padded_grow(prior.raw_allocations(u), prior.providers@.len());
            }
            assert forall|u: u64| seq_sum(#[trigger] self.allocations_of(u)) == self.balances.balance(u) by {
                assert(self.raw_allocations(u) == prior.raw_allocations(u));
                lemma_padded_grow(prior.raw_allocations(u), prior.providers@.len());
            }
            assert forall|u: u64| #[trigger] self.raw_allocations(u) == prior.raw_allocations(u) by {}
            assert(self@.balances =~= prior@.balances);
            assert(self@.claimed_requests =~= prior@.claimed_requests);
            assert(self@.allocations =~= Map::new(|u: u64| true, |u: u64| prior@.allocations[u].push(0)));
        }
        Ok(provider_id)
    }

    /// The balance of `user`.
    pub fn balance_of(&self, user: u64) -> (b: i128)
        requires
            self.wf(),
        ensures
            b == self@.balances[user],
    {
        self.balances.get(user)
    }

    /// The total under management.
    pub fn get_total_aum(&self) -> (t: i128)
        ensures
            t == self@.total_aum,
    {
        self.total_aum
    }

    /// The total yield harvested so far.
    pub fn get_total_yield_harvested(&self) -> (t: i128)
        ensures
            t == self@.total_yield_harvested,
    {
        self.total_yield_harvested
    }

    /// The provider with id `provider_id`.
    pub fn get_provider(&self, provider_id: u32) -> (r: Result<YieldProvider, YieldError>)
        ensures
            r == (if provider_id < self@.providers.len() {
                Ok::<YieldProvider, YieldError>(self@.providers[provider_id as int])
            } else {
                Err(YieldError::ProviderNotFound)
            }),
    {
        if (provider_id as usize) < self.providers.len() {
            Ok(self.providers[provider_id as usize])
        } else {
            Err(YieldError::ProviderNotFound)
        }
    }

    /// The provider deposits go to: the first active provider of the
    /// highest priority. Fails when no provider is active.
    fn find_best_provider(&self) -> (r: Result<u32, YieldError>)
        requires
            self.wf(),
        ensures
            r == (match best_provider(self@.providers, self@.providers.len() as int) {
                Some(b) => Ok::<u32, YieldError>(b as u32),
                None => Err(YieldError::NoProvidersAvailable),
            }),
            best_provider(self@.providers, self@.providers.len() as int) matches Some(b) ==> 0 <= b
                < self@.providers.len(),
    {
        proof { lemma_best_provider_maximal(self@.providers, self@.providers.len() as int); }
        let count = self.providers.len();
        let mut found = false;
        let mut best_id: u32 = 0;
        let mut best_priority: u32 = 0;
        let mut i: usize = 0;
        while i < count
            invariant
                count == self.providers@.len(),
                count <= u32::MAX,
                0 <= i <= count,
                best_provider(self.providers@, i as int) == (if found {
                    Some(best_id as int)
                } else {
                    None::<int>
                }),
                found ==> best_id < i && best_priority == self.providers@[best_id as int].priority,
            decreases count - i,
        {
            let p = self.providers[i];
            if p.is_active && (!found || p.priority > best_priority) {
                found = true;
                best_priority = p.priority;
                best_id = i as u32;
            }
            i = i + 1;
        }
        if found {
            Ok(best_id)
        } else {
            Err(YieldError::NoProvidersAvailable)
        }
    }

    /// The allocations of `user`, one per provider.
    fn full_allocations(&self, user: u64) -> (r: Vec<i128>)
        requires
            self.wf(),
        ensures
            r@.len() == self@.providers.len(),
            forall|p: int| 0 <= p < r@.len() ==> r@[p] == self@.allocations[user][p],
            forall|p: int| 0 <= p < r@.len() ==> r@[p] >= 0,
    {
        let mut v: Vec<i128> = match self.allocations.get(&user) {
            Some(a) => a.clone(),
            None => Vec::new(),
        };
        assert(v@ == self.raw_allocations(user));
        let ghost raw = v@;
        let n = self.providers.len();
        while v.len() < n
            invariant
                self.wf(),
                raw == self.raw_allocations(user),
                n == self.providers@.len(),
                raw.len() <= v@.len() <= n,
                forall|p: int| 0 <= p < raw.len() ==> v@[p] == raw[p],
                forall|p: int| raw.len() <= p < v@.len() ==> v@[p] == 0,
            decreases n - v.len(),
        {
            v.push(0);
        }
        assert(self@.allocations[user] == self.allocations_of(user));
        assert forall|p: int| 0 <= p < v@.len() implies v@[p] >= 0 by {
            if p < raw.len() {
                assert(self.raw_allocations(user)[p] >= 0);
            }
        }
        v
    }

    /// Replaces the allocations of `user` by `a`, one per provider.
    fn store_allocations(&mut self, user: u64, a: Vec<i128>)
        requires
            a@.len() == old(self).providers@.len(),
        ensures
            final(self).raw_allocations(user) == a@,
            final(self).allocations@ == old(self).allocations@.insert(user, a),
            final(self).providers == old(self).providers,
            final(self).balances == old(self).balances,
            final(self).admin == old(self).admin,
            final(self).asset == old(self).asset,
            final(self).total_aum == old(self).total_aum,
            final(self).total_yield_harvested == old(self).total_yield_harvested,
            final(self).claimed_requests == old(self).claimed_requests,
    {
        self.allocations.insert(user, a);
    }

    /// Deposits `amount` from `invoker` for `user` under `request_id`: the
    /// tokens move into the vault and on to the active provider of highest
    /// priority, and are credited to `user`'s balance and allocation with
    /// that provider. Fails when the request id was already used or no provider is active.
    pub fn deposit(&mut self, amount: i128, user: u64, request_id: [u8; 32], invoker: u64) -> (r:
        Result<DepositReceipt, YieldError>)
        requires
            old(self).wf(),
        ensures
            final(self).wf(),
            r is Err ==> final(self)@ == old(self)@,
            ({
                let v = old(self)@;
                let best = best_provider(v.providers, v.providers.len() as int).unwrap();
                if v.claimed_requests.contains(request_id) {
                    r == Err::<DepositReceipt, YieldError>(YieldError::AlreadyExecuted)
                } else if amount <= 0 {
                    r == Err::<DepositReceipt, YieldError>(YieldError::InvalidAmount)
                } else if v.asset is None {
                    r == Err::<DepositReceipt, YieldError>(YieldError::NotInitialized)
                } else if best_provider(v.providers, v.providers.len() as int) is None {
                    r == Err::<DepositReceipt, YieldError>(YieldError::NoProvidersAvailable)
                } else if !fits_i128(v.providers[best].total_deposited + amount) || !fits_i128(
                    v.total_aum + amount,
                ) {
                    r == Err::<DepositReceipt, YieldError>(YieldError::Overflow)
                } else {
                    &&& 0 <= best < v.providers.len()
                    &&& r == Ok::<DepositReceipt, YieldError>(
                        DepositReceipt {
                            amount,
                            provider_id: best as u32,
                            transfer: TokenTransfer::In { token: v.asset.unwrap(), from: invoker, amount },
                            provider_deposit: ProviderCall::Deposit {
                                provider: v.providers[best].address,
                                amount,
                            },
                        },
                    )
                    &&& final(self)@ == after_vault_deposit(v, user, amount as int, best, request_id)
                }
            }),
    {
        if self.is_claimed(&request_id) {
            return Err(YieldError::AlreadyExecuted);
        }
        if amount <= 0 {
            return Err(YieldError::InvalidAmount);
        }
        let asset = match self.asset {
            Some(a) => a,
            None => return Err(YieldError::NotInitialized),
        };
        let best = self.find_best_provider()?;
        let provider = self.providers[best as usize];
        let new_deposited = match provider.total_deposited.checked_add(amount) {
            Some(v) => v,
            None => return Err(YieldError::Overflow),
        };
        let new_aum = match self.total_aum.checked_add(amount) {
            Some(v) => v,
            None => return Err(YieldError::Overflow),
        };
        proof { self.lemma_consistent(); }
        let ghost v = self@;
        let ghost prior = *self;
        let user_balance = self.balances.get(user);
        let mut allocs = self.full_allocations(user);
        proof {
            assert(v.allocations[user] == self.allocations_of(user));
            lemma_seq_sum_nonnegative(v.allocations[user]);
            assert(v.allocations[user][best as int] <= seq_sum(v.allocations[user])) by {
                lemma_seq_sum_update(v.allocations[user], best as int, 0);
                let z = v.allocations[user].update(best as int, 0);
                assert forall|i: int| 0 <= i < z.len() implies z[i] >= 0 by {}
                lemma_seq_sum_nonnegative(z);
            }
        }
        let current = allocs[best as usize];
        allocs.set(best as usize, current + amount);
        let mut updated = provider;
        updated.total_deposited = new_deposited;
        self.providers.set(best as usize, updated);
        self.balances.set(user, user_balance + amount);
        self.total_aum = new_aum;
        let ghost before_store = self.allocations@;
        let ghost claimed_before = self.claimed_requests@;
        self.store_allocations(user, allocs);
        self.claimed_requests.push(request_id);
        proof {
            assert(before_store == prior.allocations@);
            let na = v.allocations[user].update(best as int, v.allocations[user][best as int] + amount);
            assert(self.allocations_of(user) =~= na);
            lemma_seq_sum_update(v.allocations[user], best as int, v.allocations[user][best as int] + amount);
            assert forall|u: u64| u != user implies #[trigger] self.allocations_of(u) == prior.allocations_of(u) by {
                assert(self.raw_allocations(u) == prior.raw_allocations(u));
            }
            assert forall|u: u64| seq_sum(#[trigger] self.allocations_of(u)) == self.balances.balance(u) by {
                if u != user {
                    assert(self.allocations_of(u) == prior.allocations_of(u));
                }
            }
            assert forall|u: u64, p: int| 0 <= p < self.raw_allocations(u).len()
                implies #[trigger] self.raw_allocations(u)[p] >= 0 by {
                if u == user {
                    assert(self.raw_allocations(u)[p] == self.allocations_of(u)[p]);
                } else {
                    assert(self.raw_allocations(u) == prior.raw_allocations(u));
                }
            }
            assert forall|u: u64| (#[trigger] self.raw_allocations(u)).len() <= self.providers@.len() by {
                if u != user {
                    assert(self.raw_allocations(u) == prior.raw_allocations(u));
                }
            }
            assert(self@.balances =~= v.balances.insert(user, v.balances[user] + amount));
            assert(self@.allocations =~= v.allocations.insert(user, na));
            assert(self.claimed_requests@ =~= claimed_before.push(request_id));
            assert forall|q: [u8; 32]| self.claimed_requests@.contains(q) == (claimed_before.contains(q) || q == request_id) by {
                if claimed_before.contains(q) {
                    let j = choose|j: int| 0 <= j < claimed_before.len() && claimed_before[j] == q;
                    assert(self.claimed_requests@[j] == q);
                }
                if q == request_id {
                    assert(self.claimed_requests@[claimed_before.len() as int] == q);
                }
                if self.claimed_requests@.contains(q) && q != request_id {
                    let j = choose|j: int| 0 <= j < self.claimed_requests@.len() && self.claimed_requests@[j] == q;
                    assert(claimed_before[j] == q);
                }
            }
            assert(self@.claimed_requests =~= v.claimed_requests.insert(request_id));
            assert(self@.providers =~= v.providers.update(
                best as int,
                YieldProvider { total_deposited: (v.providers[best as int].total_deposited + amount) as i128, ..v.providers[best as int] },
            ));
        }
        Ok(
            DepositReceipt {
                amount,
                provider_id: best,
                transfer: TokenTransfer::In { token: asset, from: invoker, amount },
                provider_deposit: ProviderCall::Deposit { provider: provider.address, amount },
            },
        )
    }

    /// The part of a withdrawal of `amount` taken from each provider, `None`
    /// when recording it would overflow a provider's withdrawn total.
    fn plan_withdrawal(&self, allocs: &Vec<i128>, amount: i128, Ghost(s): Ghost<Seq<int>>, Ghost(user): Ghost<u64>) -> (r: Option<Vec<i128>>)
        requires
            self.wf(),
            s == self@.allocations[user],
            allocs@.len() == self@.providers.len(),
            int_seq(allocs@) == s,
            forall|q: int| 0 <= q < s.len() ==> s[q] >= 0,
            0 < amount <= seq_sum(s),
        ensures
            r is None <==> withdraw_overflows(self@.providers, s, amount as int),
            r matches Some(takes) ==> {
                &&& takes@.len() == s.len()
                &&& forall|q: int| 0 <= q < s.len() ==> #[trigger] takes@[q] == fifo_take(s, amount as int, q)
                &&& forall|q: int| 0 <= q < s.len() ==> #[trigger] takes@[q] >= 0
                &&& forall|q: int| 0 <= q < s.len() ==> #[trigger] takes@[q] <= s[q]
                &&& seq_sum(int_seq(takes@)) == amount
            },
    {
        let ghost v = self@;
        let n = self.providers.len();
        let mut takes: Vec<i128> = Vec::new();
        let mut withdrawn: i128 = 0;
        let mut remaining: i128 = amount;
        let mut p: usize = 0;
        while p < n
            invariant
                self@ == v,
                s == v.allocations[user],
                0 < amount <= seq_sum(s),
                self.wf(),
                n == v.providers.len(),
                allocs@.len() == n,
                int_seq(allocs@) == s,
                forall|q: int| 0 <= q < n ==> s[q] >= 0,
                0 <= p <= n,
                takes@.len() == p,
                forall|q: int| 0 <= q < p ==> #[trigger] takes@[q] == fifo_take(s, amount as int, q),
                forall|q: int| 0 <= q < p ==> #[trigger] takes@[q] >= 0,
                forall|q: int| 0 <= q < p ==> #[trigger] takes@[q] <= s[q],
                withdrawn == (if amount < seq_sum(s.take(p as int)) { amount as int } else { seq_sum(s.take(p as int)) }),
                withdrawn == seq_sum(int_seq(takes@)),
                remaining == amount - withdrawn,
                0 <= withdrawn <= amount,
                forall|q: int|
                    0 <= q < p ==> !(#[trigger] fifo_take(s, amount as int, q) > 0 && !fits_i128(
                        v.providers[q].total_withdrawn + fifo_take(s, amount as int, q),
                    )),
            decreases n - p,
        {
            let a = allocs[p];
            proof {
                lemma_seq_sum_take_step(s, p as int);
                assert(s[p as int] == a);
                lemma_seq_sum_nonnegative(s.take(p as int));
            }
            let t = if remaining > 0 && a > 0 {
                if remaining > a {
                    a
                } else {
                    remaining
                }
            } else {
                0
            };
            assert(t == fifo_take(s, amount as int, p as int));
            if t > 0 {
                if self.providers[p].total_withdrawn.checked_add(t).is_none() {
                    assert(self.providers@[p as int] == v.providers[p as int]);
                    assert(fifo_take(s, amount as int, p as int) > 0 && !fits_i128(
                        v.providers[p as int].total_withdrawn + fifo_take(s, amount as int, p as int),
                    ));
                    return None;
                }
            }
            let ghost old_takes = takes@;
            takes.push(t);
            proof {
                assert(int_seq(takes@) =~= int_seq(old_takes).push(t as int));
                assert(int_seq(takes@).drop_last() =~= int_seq(old_takes));
            }
            withdrawn = withdrawn + t;
            remaining = remaining - t;
            p = p + 1;
        }
        proof {
            assert(s.take(n as int) =~= s);
            assert(!withdraw_overflows(v.providers, s, amount as int));
        }
        assert(withdrawn == amount);
        Some(takes)
    }

    /// Withdraws `amount` of `user`'s balance under `request_id`: the
    /// allocations are drained provider by provider in id order, each
    /// provider paying its part to `invoker`. Returns the amount withdrawn,
    /// which is `amount`, and the provider payouts. Fails when the request id
    /// was already used or the balance is too small.
    pub fn withdraw(&mut self, amount: i128, user: u64, request_id: [u8; 32], invoker: u64) -> (r:
        Result<(i128, Vec<ProviderCall>), YieldError>)
        requires
            old(self).wf(),
        ensures
            final(self).wf(),
            r is Err ==> final(self)@ == old(self)@,
            ({
                let v = old(self)@;
                let s = v.allocations[user];
                if v.claimed_requests.contains(request_id) {
                    r == Err::<(i128, Vec<ProviderCall>), YieldError>(YieldError::AlreadyExecuted)
                } else if amount <= 0 {
                    r == Err::<(i128, Vec<ProviderCall>), YieldError>(YieldError::InvalidAmount)
                } else if v.balances[user] < amount {
                    r == Err::<(i128, Vec<ProviderCall>), YieldError>(
                        YieldError::InsufficientBalance,
                    )
                } else if withdraw_overflows(v.providers, s, amount as int) {
                    r == Err::<(i128, Vec<ProviderCall>), YieldError>(YieldError::Overflow)
                } else {
                    r matches Ok((withdrawn, calls)) && {
                        &&& withdrawn == amount
                        &&& calls@ == withdrawal_calls(
                            v.providers,
                            s,
                            amount as int,
                            invoker,
                            v.providers.len() as int,
                        )
                        &&& final(self)@ == after_vault_withdraw(v, user, amount as int, request_id)
                    }
                }
            }),
    {
        if self.is_claimed(&request_id) {
            return Err(YieldError::AlreadyExecuted);
        }
        if amount <= 0 {
            return Err(YieldError::InvalidAmount);
        }
        let user_balance = self.balances.get(user);
        if user_balance < amount {
            return Err(YieldError::InsufficientBalance);
        }
        proof { self.lemma_consistent(); }
        let ghost v = self@;
        let ghost prior = *self;
        let ghost s = v.allocations[user];
        let allocs = self.full_allocations(user);
        assert(int_seq(allocs@) =~= s);
        let n = self.providers.len();
        proof {
            assert(seq_sum(s) == v.balances[user]);
        }
        let takes = match self.plan_withdrawal(&allocs, amount, Ghost(s), Ghost(user)) {
            Some(t) => t,
            None => return Err(YieldError::Overflow),
        };
        let withdrawn = amount;
        // Apply it.
        let mut new_allocs = allocs.clone();
        let mut calls: Vec<ProviderCall> = Vec::new();
        let mut q: usize = 0;
        while q < n
            invariant
                prior == *old(self),
                self.wf(),
                self@ == v,
                n == v.providers.len(),
                allocs@.len() == n,
                int_seq(allocs@) == s,
                forall|i: int| 0 <= i < n ==> s[i] >= 0,
                takes@.len() == n,
                forall|i: int| 0 <= i < n ==> #[trigger] takes@[i] == fifo_take(s, amount as int, i),
                forall|i: int| 0 <= i < n ==> #[trigger] takes@[i] >= 0,
                forall|i: int| 0 <= i < n ==> #[trigger] takes@[i] <= s[i],
                forall|i: int|
                    0 <= i < n ==> !(#[trigger] fifo_take(s, amount as int, i) > 0 && !fits_i128(
                        v.providers[i].total_withdrawn + fifo_take(s, amount as int, i),
                    )),
                0 <= q <= n,
                new_allocs@.len() == n,
                forall|i: int| 0 <= i < q ==> #[trigger] new_allocs@[i] == s[i] - takes@[i],
                forall|i: int| q <= i < n ==> #[trigger] new_allocs@[i] == s[i],
                seq_sum(int_seq(new_allocs@)) == seq_sum(s) - seq_sum(int_seq(takes@).take(q as int)),
                calls@ == withdrawal_calls(v.providers, s, amount as int, invoker, q as int),
            decreases n - q,
        {
            let t = takes[q];
            proof { lemma_seq_sum_take_step(int_seq(takes@), q as int); }
            if t > 0 {
                let ghost before = new_allocs@;
                let cur = new_allocs[q];
                new_allocs.set(q, cur - t);
                proof {
                    assert(int_seq(new_allocs@) =~= int_seq(before).update(q as int, (cur - t) as int));
                    lemma_seq_sum_update(int_seq(before), q as int, (cur - t) as int);
                }
                calls.push(ProviderCall::Withdraw { provider: self.providers[q].address, to: invoker, amount: t });
            }
            q = q + 1;
        }
        assert(int_seq(takes@).take(n as int) =~= int_seq(takes@));
        // Record the payouts with the providers.
        let mut k: usize = 0;
        while k < n
            invariant
                self.wf(),
                n == v.providers.len(),
                self.providers@.len() == n,
                takes@.len() == n,
                forall|i: int| 0 <= i < n ==> #[trigger] takes@[i] == fifo_take(s, amount as int, i),
                forall|i: int|
                    0 <= i < n ==> !(#[trigger] fifo_take(s, amount as int, i) > 0 && !fits_i128(
                        v.providers[i].total_withdrawn + fifo_take(s, amount as int, i),
                    )),
                forall|i: int| 0 <= i < n ==> #[trigger] takes@[i] >= 0,
                0 <= k <= n,
                forall|i: int| 0 <= i < k ==> #[trigger] self.providers@[i] == (YieldProvider {
                    total_withdrawn: (v.providers[i].total_withdrawn + takes@[i]) as i128,
                    ..v.providers[i]
                }),
                forall|i: int| k <= i < n ==> #[trigger] self.providers@[i] == v.providers[i],
                self.balances == prior.balances,
                self.allocations == prior.allocations,
                self.claimed_requests == prior.claimed_requests,
                self.total_aum == prior.total_aum,
                self.total_yield_harvested == prior.total_yield_harvested,
                self.admin == prior.admin,
                self.asset == prior.asset,
            decreases n - k,
        {
            let t = takes[k];
            let ghost before_iter = *self;
            if t > 0 {
                let mut pr = self.providers[k];
                pr.total_withdrawn = pr.total_withdrawn + t;
                self.providers.set(k, pr);
                proof {
                    assert forall|u: u64| #[trigger] self.raw_allocations(u) == before_iter.raw_allocations(u) by {}
                    assert forall|u: u64| #[trigger] self.allocations_of(u) == before_iter.allocations_of(u) by {
                        assert(self.raw_allocations(u) == before_iter.raw_allocations(u));
                    }
                    assert forall|i: int| 0 <= i < self.providers@.len() implies (#[trigger] self.providers@[i]).id == i by {
                        assert(before_iter.providers@[i].id == i);
                    }
                }
            }
            k = k + 1;
        }
        let ghost before_store = self.allocations@;
        let ghost claimed_before = self.claimed_requests@;
        self.balances.set(user, user_balance - amount);
        self.total_aum = self.total_aum - amount;
        self.store_allocations(user, new_allocs);
        self.claimed_requests.push(request_id);
        proof {
            let na = Seq::new(v.providers.len(), |p: int| s[p] - fifo_take(s, amount as int, p));
            assert(self.allocations_of(user) =~= na);
            assert(int_seq(new_allocs@) =~= na);
            assert forall|u: u64| u != user implies #[trigger] self.allocations_of(u) == prior.allocations_of(u) by {
                assert(self.raw_allocations(u) == prior.raw_allocations(u));
            }
            assert forall|u: u64| seq_sum(#[trigger] self.allocations_of(u)) == self.balances.balance(u) by {
                if u != user {
                    assert(self.allocations_of(u) == prior.allocations_of(u));
                    assert(prior@.allocations[u] == prior.allocations_of(u));
                }
            }
            assert forall|u: u64, i: int| 0 <= i < self.raw_allocations(u).len()
                implies #[trigger] self.raw_allocations(u)[i] >= 0 by {
                if u == user {
                    assert(self.raw_allocations(u)[i] == self.allocations_of(u)[i]);
                } else {
                    assert(self.raw_allocations(u) == prior.raw_allocations(u));
                }
            }
            assert forall|u: u64| (#[trigger] self.raw_allocations(u)).len() <= self.providers@.len() by {
                if u != user {
                    assert(self.raw_allocations(u) == prior.raw_allocations(u));
                }
            }
            assert forall|i: int| 0 <= i < self.providers@.len() implies (#[trigger] self.providers@[i]).id == i by {
                assert(v.providers[i].id == i);
            }
            assert(self.claimed_requests@ =~= claimed_before.push(request_id));
            assert forall|c: [u8; 32]| self.claimed_requests@.contains(c) == (claimed_before.contains(c) || c == request_id) by {
                if claimed_before.contains(c) {
                    let j = choose|j: int| 0 <= j < claimed_before.len() && claimed_before[j] == c;
                    assert(self.claimed_requests@[j] == c);
                }
                if c == request_id {
                    assert(self.claimed_requests@[claimed_before.len() as int] == c);
                }
                if self.claimed_requests@.contains(c) && c != request_id {
                    let j = choose|j: int| 0 <= j < self.claimed_requests@.len() && self.claimed_requests@[j] == c;
                    assert(claimed_before[j] == c);
                }
            }
            assert(self@.claimed_requests =~= v.claimed_requests.insert(request_id));
            assert(self@.balances =~= v.balances.insert(user, v.balances[user] - amount));
            assert(self@.allocations =~= v.allocations.insert(user, na));
            assert(self@.providers =~= after_vault_withdraw(v, user, amount as int, request_id).providers);
        }
        Ok((withdrawn, calls))
    }

    /// The address of the provider whose balance a harvest of
    /// `provider_id` needs. Fails before initialization and for an unknown
    /// provider.
    pub fn harvest_target(&self, provider_id: u32) -> (r: Result<u64, YieldError>)
        ensures
            r == (if self@.admin is None {
                Err::<u64, YieldError>(YieldError::NotInitialized)
            } else if provider_id >= self@.providers.len() {
                Err(YieldError::ProviderNotFound)
            } else {
                Ok(self@.providers[provider_id as int].address)
            }),
    {
        if self.admin.is_none() {
            return Err(YieldError::NotInitialized);
        }
        if (provider_id as usize) >= self.providers.len() {
            return Err(YieldError::ProviderNotFound);
        }
        Ok(self.providers[provider_id as usize].address)
    }

    /// Harvests the yield of provider `provider_id`, given the `balance` the
    /// provider reports for the vault: the yield is that balance less what
    /// was deposited plus what was withdrawn. A positive yield is added to
    /// the provider's and the vault's harvested totals. Returns the yield
    /// (possibly zero or negative) and the event to publish.
    pub fn harvest_yield(&mut self, provider_id: u32, balance: i128) -> (r: Result<
        (i128, YieldHarvestedEvent),
        YieldError,
    >)
        requires
            old(self).wf(),
        ensures
            final(self).wf(),
            r is Err ==> final(self)@ == old(self)@,
            ({
                let v = old(self)@;
                let p = v.providers[provider_id as int];
                let earned = balance - p.total_deposited + p.total_withdrawn;
                if v.admin is None {
                    r == Err::<(i128, YieldHarvestedEvent), YieldError>(YieldError::NotInitialized)
                } else if provider_id >= v.providers.len() {
                    r == Err::<(i128, YieldHarvestedEvent), YieldError>(YieldError::ProviderNotFound)
                } else if !fits_i128(balance - p.total_deposited) || !fits_i128(earned) || (earned > 0
                    && (!fits_i128(p.total_yield_earned + earned) || !fits_i128(
                    v.total_yield_harvested + earned,
                ))) {
                    r == Err::<(i128, YieldHarvestedEvent), YieldError>(YieldError::Overflow)
                } else {
                    &&& r == Ok::<(i128, YieldHarvestedEvent), YieldError>(
                        (
                            earned as i128,
                            YieldHarvestedEvent { provider_id, yield_earned: earned as i128 },
                        ),
                    )
                    &&& earned > 0 ==> final(self)@ == (VaultView {
                        providers: v.providers.update(
                            provider_id as int,
                            YieldProvider {
                                total_yield_earned: (p.total_yield_earned + earned) as i128,
                                ..p
                            },
                        ),
                        total_yield_harvested: v.total_yield_harvested + earned,
                        ..v
                    })
                    &&& earned <= 0 ==> final(self)@ == v
                }
            }),
    {
        if self.admin.is_none() {
            return Err(YieldError::NotInitialized);
        }
        if (provider_id as usize) >= self.providers.len() {
            return Err(YieldError::ProviderNotFound);
        }
        let provider = self.providers[provider_id as usize];
        let net = match balance.checked_sub(provider.total_deposited) {
            Some(x) => x,
            None => return Err(YieldError::Overflow),
        };
        let yield_earned = match net.checked_add(provider.total_withdrawn) {
            Some(x) => x,
            None => return Err(YieldError::Overflow),
        };
        if yield_earned > 0 {
            let earned_total = match provider.total_yield_earned.checked_add(yield_earned) {
                Some(x) => x,
                None => return Err(YieldError::Overflow),
            };
            let harvested_total = match self.total_yield_harvested.checked_add(yield_earned) {
                Some(x) => x,
                None => return Err(YieldError::Overflow),
            };
            let ghost prior = *self;
            let mut updated = provider;
            updated.total_yield_earned = earned_total;
            self.providers.set(provider_id as usize, updated);
            self.total_yield_harvested = harvested_total;
            proof {
                assert forall|u: u64| #[trigger] self.raw_allocations(u) == prior.raw_allocations(u) by {}
                assert forall|u: u64| #[trigger] self.allocations_of(u) == prior.allocations_of(u) by {
                    assert(self.raw_allocations(u) == prior.raw_allocations(u));
                }
                assert forall|i: int| 0 <= i < self.providers@.len() implies (#[trigger] self.providers@[i]).id == i by {
                    assert(prior.providers@[i].id == i);
                }
                assert(self@.balances =~= prior@.balances);
                assert(self@.allocations =~= prior@.allocations);
                assert(self@.claimed_requests =~= prior@.claimed_requests);
            }
        }
        Ok((yield_earned, YieldHarvestedEvent { provider_id, yield_earned }))
    }

}

proof fn lemma_best_provider_maximal(ps: Seq<YieldProvider>, n: int)
    requires
        0 <= n <= ps.len(),
    ensures
        best_provider(ps, n) is None <==> forall|i: int| 0 <= i < n ==> !(#[trigger] ps[i]).is_active,
        best_provider(ps, n) matches Some(b) ==> {
            &&& 0 <= b < n
            &&& ps[b].is_active
            &&& forall|i: int| 0 <= i < n && ps[i].is_active ==> #[trigger] ps[i].priority <= ps[b].priority
            &&& forall|i: int| 0 <= i < b && ps[i].is_active ==> #[trigger] ps[i].priority < ps[b].priority
        },
    decreases n,
{
    if n > 0 {
        lemma_best_provider_maximal(ps, n - 1);
        if best_provider(ps, n) is None {
            assert forall|i: int| 0 <= i < n implies !(#[trigger] ps[i]).is_active by {
                if i < n - 1 {
                }
            }
        }
    }
}

/// Deposits go to the first active provider of the highest priority; when
/// no provider is active there is none to go to.
pub proof fn law_deposits_go_to_highest_priority(ps: Seq<YieldProvider>)
    ensures
        best_provider(ps, ps.len() as int) is None <==> forall|i: int|
            0 <= i < ps.len() ==> !(#[trigger] ps[i]).is_active,
        best_provider(ps, ps.len() as int) matches Some(b) ==> {
            &&& 0 <= b < ps.len()
            &&& ps[b].is_active
            &&& forall|i: int| 0 <= i < ps.len() && ps[i].is_active ==> #[trigger] ps[i].priority <= ps[b].priority
            &&& forall|i: int| 0 <= i < b && ps[i].is_active ==> #[trigger] ps[i].priority < ps[b].priority
        },
{
    lemma_best_provider_maximal(ps, ps.len() as int);
}

proof fn lemma_fifo_prefix(s: Seq<int>, amount: int, p: int)
    requires
        0 <= p <= s.len(),
        forall|q: int| 0 <= q < s.len() ==> s[q] >= 0,
        amount >= 0,
    ensures
        seq_sum(Seq::new(p as nat, |q: int| fifo_take(s, amount, q))) == (if amount < seq_sum(
            s.take(p),
        ) {
            amount
        } else {
            seq_sum(s.take(p))
        }),
        forall|q: int| 0 <= q < p ==> 0 <= #[trigger] fifo_take(s, amount, q) <= s[q],
    decreases p,
{
    if p > 0 {
        lemma_fifo_prefix(s, amount, p - 1);
        lemma_seq_sum_take_step(s, p - 1);
        lemma_seq_sum_nonnegative(s.take(p - 1));
        assert(Seq::new(p as nat, |q: int| fifo_take(s, amount, q)).drop_last() =~= Seq::new(
            (p - 1) as nat,
            |q: int| fifo_take(s, amount, q),
        ));
    } else {
        assert(s.take(0) =~= Seq::<int>::empty());
    }
}

/// A withdrawal of at most the depositor's balance takes exactly the amount
/// asked for, never more from a provider than the depositor's allocation
/// with it, and drains providers in id order: a provider is only touched
/// once every provider before it is fully drained.
pub proof fn law_withdrawal_takes_exact_amount(s: Seq<int>, amount: int)
    requires
        forall|q: int| 0 <= q < s.len() ==> s[q] >= 0,
        0 <= amount <= seq_sum(s),
    ensures
        seq_sum(Seq::new(s.len(), |q: int| fifo_take(s, amount, q))) == amount,
        forall|q: int| 0 <= q < s.len() ==> 0 <= #[trigger] fifo_take(s, amount, q) <= s[q],
        forall|p: int, q: int|
            0 <= q < p < s.len() && #[trigger] fifo_take(s, amount, p) > 0 ==> #[trigger] fifo_take(
                s,
                amount,
                q,
            ) == s[q],
{
    lemma_fifo_prefix(s, amount, s.len() as int);
    assert(s.take(s.len() as int) =~= s);
    assert forall|p: int, q: int|
        0 <= q < p < s.len() && #[trigger] fifo_take(s, amount, p) > 0 implies #[trigger] fifo_take(
            s,
            amount,
            q,
        ) == s[q] by {
        lemma_prefix_monotone(s, q + 1, p);
        lemma_seq_sum_take_step(s, q);
    }
}

proof fn lemma_prefix_monotone(s: Seq<int>, a: int, b: int)
    requires
        0 <= a <= b <= s.len(),
        forall|q: int| 0 <= q < s.len() ==> s[q] >= 0,
    ensures
        seq_sum(s.take(a)) <= seq_sum(s.take(b)),
    decreases b - a,
{
    if a < b {
        lemma_prefix_monotone(s, a, b - 1);
        lemma_seq_sum_take_step(s, b - 1);
    }
}

/// Every operation keeps the vault consistent: each account's allocations
/// add up to its balance, and every balance lies within the total under
/// management.
pub proof fn law_vault_consistent(v: YieldVaultContract)
    requires
        v.wf(),
    ensures
        vault_consistent(v@),
{
    v.lemma_consistent();
}

/// The total under management is always the sum of all depositors'
/// balances.
pub proof fn law_balances_add_up(v: YieldVaultContract)
    requires
        v.wf(),
    ensures
        is_sum_of_balances(v@.total_aum, v@.balances),
{
    v.lemma_balances_add_up();
}

} // verus!
