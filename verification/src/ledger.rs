use vstd::prelude::*;

verus! {

/// Whether `x` lies in the range of `i128`.
pub open spec fn fits_i128(x: int) -> bool {
    i128::MIN <= x <= i128::MAX
}

/// The sum of the balances `bal` of the accounts in `accounts`.
pub open spec fn sum_over(accounts: Seq<u64>, bal: Map<u64, int>) -> int
    decreases accounts.len(),
{
    if accounts.len() == 0 {
        0
    } else {
        sum_over(accounts.drop_last(), bal) + bal[accounts.last()]
    }
}

/// `total` is the sum of all balances in `bal`: some finite list of distinct
/// accounts holds every non-zero balance, and their balances add up to
/// `total`.
pub open spec fn is_sum_of_balances(total: int, bal: Map<u64, int>) -> bool {
    exists|accounts: Seq<u64>|
        #![trigger sum_over(accounts, bal)]
        accounts.no_duplicates() && (forall|u: u64| !accounts.contains(u) ==> bal[u] == 0)
            && sum_over(accounts, bal) == total
}

/// The accounts of an association list, in order.
spec fn accounts_of(s: Seq<(u64, i128)>) -> Seq<u64> {
    Seq::new(s.len(), |i: int| s[i].0)
}

proof fn lemma_sum_over_accounts(s: Seq<(u64, i128)>, bal: Map<u64, int>)
    requires
        forall|i: int| 0 <= i < s.len() ==> bal[#[trigger] s[i].0] == s[i].1,
    ensures
        sum_over(accounts_of(s), bal) == sum_amounts(s),
    decreases s.len(),
{
    if s.len() > 0 {
        assert(accounts_of(s).drop_last() =~= accounts_of(s.drop_last()));
        assert forall|i: int| 0 <= i < s.drop_last().len() implies bal[#[trigger] s.drop_last()[i].0]
            == s.drop_last()[i].1 by {
            assert(s.drop_last()[i] == s[i]);
        }
        lemma_sum_over_accounts(s.drop_last(), bal);
        assert(bal[s[s.len() - 1].0] == s[s.len() - 1].1);
    }
}

/// Sum of the amounts of an association list.
pub open spec fn sum_amounts(s: Seq<(u64, i128)>) -> int
    decreases s.len(),
{
    if s.len() == 0 {
        0
    } else {
        sum_amounts(s.drop_last()) + s.last().1
    }
}

/// The amount recorded for `who`, or 0 when `who` has no entry.
pub open spec fn lookup(s: Seq<(u64, i128)>, who: u64) -> int
    decreases s.len(),
{
    if s.len() == 0 {
        0
    } else if s.last().0 == who {
        s.last().1 as int
    } else {
        lookup(s.drop_last(), who)
    }
}

pub open spec fn keys_unique(s: Seq<(u64, i128)>) -> bool {
    forall|i: int, j: int| 0 <= i < j < s.len() ==> s[i].0 != s[j].0
}

pub open spec fn amounts_nonnegative(s: Seq<(u64, i128)>) -> bool {
    forall|i: int| 0 <= i < s.len() ==> s[i].1 >= 0
}

proof fn lemma_sum_update(s: Seq<(u64, i128)>, i: int, e: (u64, i128))
    requires
        0 <= i < s.len(),
    ensures
        sum_amounts(s.update(i, e)) == sum_amounts(s) - s[i].1 + e.1,
    decreases s.len(),
{
    let t = s.update(i, e);
    if i == s.len() - 1 {
        assert(t.drop_last() =~= s.drop_last());
    } else {
        assert(t.drop_last() =~= s.drop_last().update(i, e));
        lemma_sum_update(s.drop_last(), i, e);
    }
}

proof fn lemma_sum_push(s: Seq<(u64, i128)>, e: (u64, i128))
    ensures
        sum_amounts(s.push(e)) == sum_amounts(s) + e.1,
{
    assert(s.push(e).drop_last() =~= s);
}

proof fn lemma_lookup_absent(s: Seq<(u64, i128)>, who: u64)
    requires
        forall|i: int| 0 <= i < s.len() ==> s[i].0 != who,
    ensures
        lookup(s, who) == 0,
    decreases s.len(),
{
    if s.len() > 0 {
        lemma_lookup_absent(s.drop_last(), who);
    }
}

proof fn lemma_lookup_at(s: Seq<(u64, i128)>, i: int)
    requires
        0 <= i < s.len(),
        keys_unique(s),
    ensures
        lookup(s, s[i].0) == s[i].1,
    decreases s.len(),
{
    if i < s.len() - 1 {
        lemma_lookup_at(s.drop_last(), i);
    }
}

proof fn lemma_lookup_update(s: Seq<(u64, i128)>, i: int, v: i128, who: u64)
    requires
        0 <= i < s.len(),
        keys_unique(s),
    ensures
        lookup(s.update(i, (s[i].0, v)), who) == if who == s[i].0 {
            v as int
        } else {
            lookup(s, who)
        },
    decreases s.len(),
{
    let t = s.update(i, (s[i].0, v));
    if i == s.len() - 1 {
        assert(t.drop_last() =~= s.drop_last());
        if who == s[i].0 {
        } else {
        }
    } else {
        assert(t.drop_last() =~= s.drop_last().update(i, (s[i].0, v)));
        lemma_lookup_update(s.drop_last(), i, v, who);
    }
}

proof fn lemma_lookup_push(s: Seq<(u64, i128)>, e: (u64, i128), who: u64)
    ensures
        lookup(s.push(e), who) == if who == e.0 {
            e.1 as int
        } else {
            lookup(s, who)
        },
{
    assert(s.push(e).drop_last() =~= s);
}

proof fn lemma_lookup_bounded(s: Seq<(u64, i128)>, who: u64)
    requires
        keys_unique(s),
        amounts_nonnegative(s),
    ensures
        0 <= lookup(s, who) <= sum_amounts(s),
    decreases s.len(),
{
    if s.len() > 0 {
        lemma_lookup_bounded(s.drop_last(), who);
        lemma_sum_nonnegative(s.drop_last());
    }
}

proof fn lemma_sum_nonnegative(s: Seq<(u64, i128)>)
    requires
        amounts_nonnegative(s),
    ensures
        sum_amounts(s) >= 0,
    decreases s.len(),
{
    if s.len() > 0 {
        lemma_sum_nonnegative(s.drop_last());
    }
}

/// Non-negative balances of accounts, keyed by account id, whose total is
/// tracked alongside.
pub struct Ledger {
    entries: Vec<(u64, i128)>,
}

impl Ledger {
    pub closed spec fn wf(&self) -> bool {
        &&& keys_unique(self.entries@)
        &&& amounts_nonnegative(self.entries@)
    }

    /// The balance of `who` (0 when nothing was ever recorded).
    pub closed spec fn balance(&self, who: u64) -> int {
        lookup(self.entries@, who)
    }

    /// The sum of all balances.
    pub closed spec fn total(&self) -> int {
        sum_amounts(self.entries@)
    }

    /// Every balance lies between 0 and the total.
    pub proof fn lemma_balance_bounded(&self, who: u64)
        requires
            self.wf(),
        ensures
            0 <= self.balance(who) <= self.total(),
    {
        lemma_lookup_bounded(self.entries@, who);
    }

    /// The total is the sum of all balances, given as `bal`.
    pub proof fn lemma_total_is_sum(&self, bal: Map<u64, int>)
        requires
            self.wf(),
            forall|u: u64| #[trigger] bal[u] == self.balance(u),
        ensures
            is_sum_of_balances(self.total(), bal),
    {
        let e = self.entries@;
        let accounts = accounts_of(e);
        assert forall|i: int| 0 <= i < e.len() implies bal[#[trigger] e[i].0] == e[i].1 by {
            lemma_lookup_at(e, i);
        }
        lemma_sum_over_accounts(e, bal);
        assert forall|u: u64| !accounts.contains(u) implies bal[u] == 0 by {
            assert forall|i: int| 0 <= i < e.len() implies e[i].0 != u by {
                assert(accounts[i] == e[i].0);
            }
            lemma_lookup_absent(e, u);
        }
        assert(accounts.no_duplicates()) by {
            assert forall|i: int, j: int| 0 <= i < accounts.len() && 0 <= j < accounts.len() && i != j
                implies accounts[i] != accounts[j] by {
                if i < j {
                } else {
                }
            }
        }
        assert(sum_over(accounts, bal) == self.total());
    }

    pub fn new() -> (l: Ledger)
        ensures
            l.wf(),
            l.total() == 0,
            forall|who: u64| l.balance(who) == 0,
    {
        Ledger { entries: Vec::new() }
    }

    pub fn get(&self, who: u64) -> (b: i128)
        requires
            self.wf(),
        ensures
            b == self.balance(who),
            b >= 0,
    {
        let mut i: usize = 0;
        while i < self.entries.len()
            invariant
                0 <= i <= self.entries.len(),
                self.wf(),
                forall|j: int| 0 <= j < i ==> self.entries@[j].0 != who,
            decreases self.entries.len() - i,
        {
            if self.entries[i].0 == who {
                proof { lemma_lookup_at(self.entries@, i as int); }
                return self.entries[i].1;
            }
            i = i + 1;
        }
        proof { lemma_lookup_absent(self.entries@, who); }
        0
    }

    pub fn set(&mut self, who: u64, amount: i128)
        requires
            old(self).wf(),
            amount >= 0,
        ensures
            final(self).wf(),
            final(self).balance(who) == amount,
            forall|other: u64| other != who ==> final(self).balance(other) == old(self).balance(other),
            final(self).total() == old(self).total() - old(self).balance(who) + amount,
    {
        let mut i: usize = 0;
        while i < self.entries.len()
            invariant
                0 <= i <= self.entries.len(),
                self.wf(),
                self.entries@ == old(self).entries@,
                amount >= 0,
                forall|j: int| 0 <= j < i ==> self.entries@[j].0 != who,
            decreases self.entries.len() - i,
        {
            if self.entries[i].0 == who {
                let ghost s = self.entries@;
                proof {
                    lemma_lookup_at(s, i as int);
                    lemma_sum_update(s, i as int, (who, amount));
                    assert forall|w: u64| lookup(s.update(i as int, (who, amount)), w) == if w == who {
                        amount as int
                    } else {
                        lookup(s, w)
                    } by {
                        lemma_lookup_update(s, i as int, amount, w);
                    }
                }
                self.entries.set(i, (who, amount));
                assert(self.entries@ =~= s.update(i as int, (who, amount)));
                assert(keys_unique(self.entries@));
                assert(amounts_nonnegative(self.entries@));
                return;
            }
            i = i + 1;
        }
        let ghost s = self.entries@;
        proof {
            lemma_lookup_absent(s, who);
            lemma_sum_push(s, (who, amount));
            assert forall|w: u64| lookup(s.push((who, amount)), w) == if w == who {
                amount as int
            } else {
                lookup(s, w)
            } by {
                lemma_lookup_push(s, (who, amount), w);
            }
        }
        self.entries.push((who, amount));
        assert(self.entries@ =~= s.push((who, amount)));
        assert(keys_unique(self.entries@));
        assert(amounts_nonnegative(self.entries@));
    }
}

} // verus!
