//! A notification broker: listeners subscribe to the events of a source
//! (to one event type, or to all of them), and a source's notification is
//! routed to every listener subscribed to it. State changes are guarded
//! against reentrancy while a notification is being delivered.
use std::collections::HashMap;
use vstd::prelude::*;

verus! {

broadcast use vstd::std_specs::hash::group_hash_axioms;

#[derive(Clone, Copy, Debug, PartialEq, Eq, Structural)]
pub enum NotificationBrokerError {
    NotInitialized,
    AlreadyInitialized,
    SubscriptionNotFound,
    ReentrancyDetected,
}

/// A listener's subscription to the events of `source`: to one event type,
/// or to all of them when `event_type` is `None`.
#[derive(Clone, Copy, Debug, PartialEq, Eq, Structural)]
pub struct ListenerSubscription {
    pub listener: u64,
    pub source: u64,
    pub event_type: Option<u64>,
    pub timestamp: u64,
}

/// (listener, source, event type) identifying a subscription.
pub type SubscriptionKey = (u64, u64, Option<u64>);

pub open spec fn key_of(s: ListenerSubscription) -> SubscriptionKey {
    (s.listener, s.source, s.event_type)
}

/// The subscription time recorded for `k`, if any.
pub open spec fn sub_lookup(s: Seq<ListenerSubscription>, k: SubscriptionKey) -> Option<u64>
    decreases s.len(),
{
    if s.len() == 0 {
        None
    } else if key_of(s.last()) == k {
        Some(s.last().timestamp)
    } else {
        sub_lookup(s.drop_last(), k)
    }
}

pub open spec fn sub_keys_unique(s: Seq<ListenerSubscription>) -> bool {
    forall|i: int, j: int| 0 <= i < j < s.len() ==> key_of(s[i]) != key_of(s[j])
}

proof fn lemma_sub_absent(s: Seq<ListenerSubscription>, k: SubscriptionKey)
    requires
        forall|i: int| 0 <= i < s.len() ==> key_of(s[i]) != k,
    ensures
        sub_lookup(s, k) is None,
    decreases s.len(),
{
    if s.len() > 0 {
        lemma_sub_absent(s.drop_last(), k);
    }
}

proof fn lemma_sub_at(s: Seq<ListenerSubscription>, i: int)
    requires
        0 <= i < s.len(),
        sub_keys_unique(s),
    ensures
        sub_lookup(s, key_of(s[i])) == Some(s[i].timestamp),
    decreases s.len(),
{
    if i < s.len() - 1 {
        lemma_sub_at(s.drop_last(), i);
    }
}

proof fn lemma_sub_found(s: Seq<ListenerSubscription>, k: SubscriptionKey)
    requires
        sub_lookup(s, k) is Some,
    ensures
        exists|i: int| 0 <= i < s.len() && key_of(s[i]) == k,
    decreases s.len(),
{
    if key_of(s.last()) != k {
        lemma_sub_found(s.drop_last(), k);
        let i = choose|i: int| 0 <= i < s.drop_last().len() && key_of(s.drop_last()[i]) == k;
        assert(key_of(s[i]) == k);
    } else {
        assert(key_of(s[s.len() - 1]) == k);
    }
}

proof fn lemma_sub_update(s: Seq<ListenerSubscription>, i: int, e: ListenerSubscription, k: SubscriptionKey)
    requires
        0 <= i < s.len(),
        key_of(e) == key_of(s[i]),
        sub_keys_unique(s),
    ensures
        sub_lookup(s.update(i, e), k) == if k == key_of(e) {
            Some(e.timestamp)
        } else {
            sub_lookup(s, k)
        },
    decreases s.len(),
{
    let t = s.update(i, e);
    if i == s.len() - 1 {
        assert(t.drop_last() =~= s.drop_last());
    } else {
        assert(t.drop_last() =~= s.drop_last().update(i, e));
        lemma_sub_update(s.drop_last(), i, e, k);
    }
}

proof fn lemma_sub_push(s: Seq<ListenerSubscription>, e: ListenerSubscription, k: SubscriptionKey)
    ensures
        sub_lookup(s.push(e), k) == if k == key_of(e) {
            Some(e.timestamp)
        } else {
            sub_lookup(s, k)
        },
{
    assert(s.push(e).drop_last() =~= s);
}

proof fn lemma_sub_remove(s: Seq<ListenerSubscription>, i: int, k: SubscriptionKey)
    requires
        0 <= i < s.len(),
        sub_keys_unique(s),
    ensures
        sub_lookup(s.remove(i), k) == if k == key_of(s[i]) {
            None
        } else {
            sub_lookup(s, k)
        },
    decreases s.len(),
{
    let t = s.remove(i);
    if i == s.len() - 1 {
        assert(t =~= s.drop_last());
        if k == key_of(s[i]) {
            lemma_sub_absent(s.drop_last(), k);
        }
    } else {
        assert(t.drop_last() =~= s.drop_last().remove(i));
        assert(t.last() == s.last());
        lemma_sub_remove(s.drop_last(), i, k);
    }
}

/// The listeners, in subscription order, that a notification of
/// `event_type` from `source` reaches: those subscribed to that event type
/// or to all events of the source.
pub open spec fn notified_listeners(
    listeners: Seq<u64>,
    subs: Map<SubscriptionKey, u64>,
    source: u64,
    event_type: u64,
) -> Seq<u64>
    decreases listeners.len(),
{
    if listeners.len() == 0 {
        Seq::empty()
    } else {
        let rest = notified_listeners(listeners.drop_last(), subs, source, event_type);
        let l = listeners.last();
        if subs.contains_key((l, source, Some(event_type))) || subs.contains_key((l, source, None)) {
            rest.push(l)
        } else {
            rest
        }
    }
}

proof fn lemma_notified_len(listeners: Seq<u64>, subs: Map<SubscriptionKey, u64>, source: u64, event_type: u64)
    ensures
        notified_listeners(listeners, subs, source, event_type).len() <= listeners.len(),
    decreases listeners.len(),
{
    if listeners.len() > 0 {
        lemma_notified_len(listeners.drop_last(), subs, source, event_type);
    }
}

/// Every listener that is subscribed to the event type, or to all events of
/// the source, and appears in the routing list is notified.
pub proof fn lemma_notified_complete(
    listeners: Seq<u64>,
    subs: Map<SubscriptionKey, u64>,
    source: u64,
    event_type: u64,
    l: u64,
)
    requires
        listeners.contains(l),
        subs.contains_key((l, source, Some(event_type))) || subs.contains_key((l, source, None)),
    ensures
        notified_listeners(listeners, subs, source, event_type).contains(l),
    decreases listeners.len(),
{
    let rest = notified_listeners(listeners.drop_last(), subs, source, event_type);
    if listeners.last() == l {
        assert(rest.push(l)[rest.len() as int] == l);
    } else {
        let i = choose|i: int| 0 <= i < listeners.len() && listeners[i] == l;
        assert(listeners.drop_last()[i] == l);
        lemma_notified_complete(listeners.drop_last(), subs, source, event_type, l);
        let j = choose|j: int| 0 <= j < rest.len() && rest[j] == l;
        if subs.contains_key((listeners.last(), source, Some(event_type))) || subs.contains_key(
            (listeners.last(), source, None),
        ) {
            assert(rest.push(listeners.last())[j] == l);
        }
    }
}

/// The broker's observable state.
pub struct BrokerView {
    pub admin: Option<u64>,
    /// True while a notification is being delivered (the reentrancy lock).
    pub delivering: bool,
    /// Subscription time of every subscription.
    pub subscriptions: Map<SubscriptionKey, u64>,
    /// Routing list of every source (empty when nobody ever subscribed).
    pub listeners: Map<u64, Seq<u64>>,
}

/// The broker's invariant: routing lists hold no duplicates and fit a
/// 32-bit length, and every subscriber of a source is on its routing list.
pub open spec fn broker_consistent(v: BrokerView) -> bool {
    &&& forall|src: u64| #[trigger] v.listeners.contains_key(src)
    &&& forall|src: u64| (#[trigger] v.listeners[src]).no_duplicates()
    &&& forall|src: u64| (#[trigger] v.listeners[src]).len() <= u32::MAX
    &&& forall|k: SubscriptionKey| #[trigger] v.subscriptions.contains_key(k) ==> v.listeners[k.1].contains(k.0)
}

/// The notification broker's state.
pub struct NotificationBrokerContract {
    admin: Option<u64>,
    locked: bool,
    subscriptions: Vec<ListenerSubscription>,
    listeners: HashMap<u64, Vec<u64>>,
}

impl View for NotificationBrokerContract {
    type V = BrokerView;

    closed spec fn view(&self) -> BrokerView {
        BrokerView {
            admin: self.admin,
            delivering: self.locked,
            subscriptions: Map::new(
                |k: SubscriptionKey| sub_lookup(self.subscriptions@, k) is Some,
                |k: SubscriptionKey| sub_lookup(self.subscriptions@, k).unwrap(),
            ),
            listeners: Map::new(
                |src: u64| true,
                |src: u64|
                    if self.listeners@.contains_key(src) {
                        self.listeners@[src]@
                    } else {
                        Seq::<u64>::empty()
                    },
            ),
        }
    }
}

impl NotificationBrokerContract {
    pub closed spec fn wf(&self) -> bool {
        &&& sub_keys_unique(self.subscriptions@)
        &&& broker_consistent(self@)
    }

    pub fn new() -> (b: NotificationBrokerContract)
        ensures
            b.wf(),
            b@.admin is None,
            !b@.delivering,
            b@.subscriptions == Map::<SubscriptionKey, u64>::empty(),
            forall|src: u64| #[trigger] b@.listeners[src] == Seq::<u64>::empty(),
    {
        let b = NotificationBrokerContract {
            admin: None,
            locked: false,
            subscriptions: Vec::new(),
            listeners: HashMap::new(),
        };
        assert(b@.subscriptions =~= Map::<SubscriptionKey, u64>::empty());
        b
    }

    fn find_subscription(&self, k: SubscriptionKey) -> (r: Option<usize>)
        requires
            self.wf(),
        ensures
            r matches Some(i) ==> i < self.subscriptions@.len() && key_of(self.subscriptions@[i as int]) == k,
            r is None ==> !self@.subscriptions.contains_key(k),
    {
        let mut i: usize = 0;
        while i < self.subscriptions.len()
            invariant
                0 <= i <= self.subscriptions@.len(),
                forall|j: int| 0 <= j < i ==> key_of(self.subscriptions@[j]) != k,
            decreases self.subscriptions.len() - i,
        {
            let s = self.subscriptions[i];
            let same_type = match (s.event_type, k.2) {
                (Some(a), Some(b)) => a == b,
                (None, None) => true,
                _ => false,
            };
            if s.listener == k.0 && s.source == k.1 && same_type {
                return Some(i);
            }
            i = i + 1;
        }
        proof { lemma_sub_absent(self.subscriptions@, k); }
        None
    }

    fn listeners_of(&self, source: u64) -> (r: Vec<u64>)
        ensures
            r@ == self@.listeners[source],
    {
        match self.listeners.get(&source) {
            Some(l) => l.clone(),
            None => Vec::new(),
        }
    }

    /// Records the admin. Fails during a delivery and when already
    /// initialized.
    pub fn initialize(&mut self, admin: u64) -> (r: Result<(), NotificationBrokerError>)
        requires
            old(self).wf(),
        ensures
            final(self).wf(),
            r is Err ==> final(self)@ == old(self)@,
            old(self)@.delivering ==> r == Err::<(), NotificationBrokerError>(
                NotificationBrokerError::ReentrancyDetected,
            ),
            !old(self)@.delivering && old(self)@.admin is Some ==> r == Err::<
                (),
                NotificationBrokerError,
            >(NotificationBrokerError::AlreadyInitialized),
            !old(self)@.delivering && old(self)@.admin is None ==> r is Ok && final(self)@ == (
            BrokerView { admin: Some(admin), ..old(self)@ }),
    {
        if self.locked {
            return Err(NotificationBrokerError::ReentrancyDetected);
        }
        if self.admin.is_some() {
            return Err(NotificationBrokerError::AlreadyInitialized);
        }
        self.admin = Some(admin);
        assert(self@.subscriptions =~= old(self)@.subscriptions);
        assert(self@.listeners =~= old(self)@.listeners);
        Ok(())
    }

    /// The admin.
    pub fn admin(&self) -> (r: Result<u64, NotificationBrokerError>)
        ensures
            r == (match self@.admin {
                Some(a) => Ok::<u64, NotificationBrokerError>(a),
                None => Err(NotificationBrokerError::NotInitialized),
            }),
    {
        match self.admin {
            Some(a) => Ok(a),
            None => Err(NotificationBrokerError::NotInitialized),
        }
    }

    /// Whether `listener` holds the subscription `(source, event_type)`.
    pub fn is_subscribed(&self, listener: u64, source: u64, event_type: Option<u64>) -> (r: Result<
        bool,
        NotificationBrokerError,
    >)
        requires
            self.wf(),
        ensures
            r == Ok::<bool, NotificationBrokerError>(
                self@.subscriptions.contains_key((listener, source, event_type)),
            ),
    {
        match self.find_subscription((listener, source, event_type)) {
            Some(i) => {
                proof { lemma_sub_at(self.subscriptions@, i as int); }
                Ok(true)
            },
            None => Ok(false),
        }
    }

    /// The routing list of `source`: every listener that ever subscribed to
    /// it, in order of first subscription.
    pub fn get_listeners_for_source(&self, source: u64) -> (r: Result<
        Vec<u64>,
        NotificationBrokerError,
    >)
        ensures
            r matches Ok(l) && l@ == self@.listeners[source],
    {
        Ok(self.listeners_of(source))
    }

    fn list_contains(list: &Vec<u64>, x: u64) -> (r: bool)
        ensures
            r == list@.contains(x),
    {
        let mut i: usize = 0;
        while i < list.len()
            invariant
                0 <= i <= list@.len(),
                forall|j: int| 0 <= j < i ==> list@[j] != x,
            decreases list.len() - i,
        {
            if list[i] == x {
                assert(list@[i as int] == x);
                return true;
            }
            i = i + 1;
        }
        false
    }

    /// Subscribes `listener` to the events of `source` (of `event_type` only,
    /// or all of them for `None`), stamped with `now`, and puts it on the
    /// source's routing list if it is not there yet. Fails during a delivery
    /// and before initialization. A routing list holds at most `u32::MAX`
    /// listeners.
    pub fn subscribe(&mut self, listener: u64, source: u64, event_type: Option<u64>, now: u64) -> (r:
        Result<(), NotificationBrokerError>)
        requires
            old(self).wf(),
            old(self)@.listeners[source].len() < u32::MAX,
        ensures
            final(self).wf(),
            r is Err ==> final(self)@ == old(self)@,
            old(self)@.delivering ==> r == Err::<(), NotificationBrokerError>(
                NotificationBrokerError::ReentrancyDetected,
            ),
            !old(self)@.delivering && old(self)@.admin is None ==> r == Err::<
                (),
                NotificationBrokerError,
            >(NotificationBrokerError::NotInitialized),
            !old(self)@.delivering && old(self)@.admin is Some ==> r is Ok && final(self)@ == (
            BrokerView {
                subscriptions: old(self)@.subscriptions.insert((listener, source, event_type), now),
                listeners: if old(self)@.listeners[source].contains(listener) {
                    old(self)@.listeners
                } else {
                    old(self)@.listeners.insert(
                        source,
                        old(self)@.listeners[source].push(listener),
                    )
                },
                ..old(self)@
            }),
    {
        if self.locked {
            return Err(NotificationBrokerError::ReentrancyDetected);
        }
        if self.admin.is_none() {
            return Err(NotificationBrokerError::NotInitialized);
        }
        let ghost v = self@;
        let key = (listener, source, event_type);
        let entry = ListenerSubscription { listener, source, event_type, timestamp: now };
        let ghost subs = self.subscriptions@;
        match self.find_subscription(key) {
            Some(i) => {
                proof {
                    assert forall|k: SubscriptionKey| sub_lookup(subs.update(i as int, entry), k) == if k == key {
                        Some(now)
                    } else {
                        sub_lookup(subs, k)
                    } by {
                        lemma_sub_update(subs, i as int, entry, k);
                    }
                }
                self.subscriptions.set(i, entry);
                assert(self.subscriptions@ =~= subs.update(i as int, entry));
            },
            None => {
                proof {
                    assert forall|k: SubscriptionKey| sub_lookup(subs.push(entry), k) == if k == key {
                        Some(now)
                    } else {
                        sub_lookup(subs, k)
                    } by {
                        lemma_sub_push(subs, entry, k);
                    }
                    assert forall|j: int| 0 <= j < subs.len() implies key_of(subs[j]) != key by {
                        if key_of(subs[j]) == key {
                            lemma_sub_at(subs, j);
                        }
                    }
                }
                self.subscriptions.push(entry);
                assert(self.subscriptions@ =~= subs.push(entry));
            },
        }
        assert(self@.subscriptions =~= v.subscriptions.insert(key, now));
        let mut list = self.listeners_of(source);
        if !Self::list_contains(&list, listener) {
            let ghost old_list = list@;
            list.push(listener);
            proof {
                assert(list@ =~= old_list.push(listener));
                assert forall|a: int, b: int| 0 <= a < b < list@.len() implies list@[a] != list@[b] by {
                    if b == list@.len() - 1 {
                        assert(old_list[a] == list@[a]);
                    }
                }
            }
            self.listeners.insert(source, list);
            assert(self@.listeners =~= v.listeners.insert(source, v.listeners[source].push(listener)));
        }
        proof {
            assert(self@.listeners[source].contains(listener)) by {
                if !v.listeners[source].contains(listener) {
                    assert(self@.listeners[source][v.listeners[source].len() as int] == listener);
                }
            }
            assert forall|k: SubscriptionKey| #[trigger] self@.subscriptions.contains_key(k)
                implies self@.listeners[k.1].contains(k.0) by {
                if k != key {
                    assert(v.subscriptions.contains_key(k));
                    assert(v.listeners[k.1].contains(k.0));
                    let j = choose|j: int| 0 <= j < v.listeners[k.1].len() && v.listeners[k.1][j] == k.0;
                    assert(self@.listeners[k.1][j] == k.0);
                }
            }
        }
        Ok(())
    }

    /// Removes the subscription `(listener, source, event_type)`. The
    /// listener stays on the source's routing list. Fails during a delivery
    /// and when there is no such subscription.
    pub fn unsubscribe(&mut self, listener: u64, source: u64, event_type: Option<u64>) -> (r: Result<
        (),
        NotificationBrokerError,
    >)
        requires
            old(self).wf(),
        ensures
            final(self).wf(),
            r is Err ==> final(self)@ == old(self)@,
            old(self)@.delivering ==> r == Err::<(), NotificationBrokerError>(
                NotificationBrokerError::ReentrancyDetected,
            ),
            !old(self)@.delivering && !old(self)@.subscriptions.contains_key(
                (listener, source, event_type),
            ) ==> r == Err::<(), NotificationBrokerError>(
                NotificationBrokerError::SubscriptionNotFound,
            ),
            !old(self)@.delivering && old(self)@.subscriptions.contains_key(
                (listener, source, event_type),
            ) ==> r is Ok && final(self)@ == (BrokerView {
                subscriptions: old(self)@.subscriptions.remove((listener, source, event_type)),
                ..old(self)@
            }),
    {
        if self.locked {
            return Err(NotificationBrokerError::ReentrancyDetected);
        }
        let key = (listener, source, event_type);
        let i = match self.find_subscription(key) {
            Some(i) => i,
            None => return Err(NotificationBrokerError::SubscriptionNotFound),
        };
        let ghost v = self@;
        let ghost subs = self.subscriptions@;
        proof {
            lemma_sub_at(subs, i as int);
            assert forall|k: SubscriptionKey| sub_lookup(subs.remove(i as int), k) == if k == key {
                None
            } else {
                sub_lookup(subs, k)
            } by {
                lemma_sub_remove(subs, i as int, k);
            }
        }
        self.subscriptions.remove(i);
        assert(self.subscriptions@ =~= subs.remove(i as int));
        assert(self@.subscriptions =~= v.subscriptions.remove(key));
        assert(self@.listeners =~= v.listeners);
        Ok(())
    }

    /// Starts delivering a notification of `event_type` from `source`:
    /// returns how many listeners it reaches and which ones, in routing
    /// order, and holds the reentrancy lock until `finish_notify`. Fails
    /// during another delivery and before initialization.
    pub fn notify(&mut self, source: u64, event_type: u64) -> (r: Result<
        (u32, Vec<u64>),
        NotificationBrokerError,
    >)
        requires
            old(self).wf(),
        ensures
            final(self).wf(),
            r is Err ==> final(self)@ == old(self)@,
            old(self)@.delivering ==> r == Err::<(u32, Vec<u64>), NotificationBrokerError>(
                NotificationBrokerError::ReentrancyDetected,
            ),
            !old(self)@.delivering && old(self)@.admin is None ==> r == Err::<
                (u32, Vec<u64>),
                NotificationBrokerError,
            >(NotificationBrokerError::NotInitialized),
            !old(self)@.delivering && old(self)@.admin is Some ==> (r matches Ok((n, targets)) && {
                &&& targets@ == notified_listeners(
                    old(self)@.listeners[source],
                    old(self)@.subscriptions,
                    source,
                    event_type,
                )
                &&& n == targets@.len()
                &&& final(self)@ == (BrokerView { delivering: true, ..old(self)@ })
            }),
    {
        if self.locked {
            return Err(NotificationBrokerError::ReentrancyDetected);
        }
        if self.admin.is_none() {
            return Err(NotificationBrokerError::NotInitialized);
        }
        let ghost v = self@;
        let list = self.listeners_of(source);
        let mut targets: Vec<u64> = Vec::new();
        let mut i: usize = 0;
        while i < list.len()
            invariant
                self.wf(),
                self@ == v,
                list@ == v.listeners[source],
                0 <= i <= list@.len(),
                targets@ == notified_listeners(list@.take(i as int), v.subscriptions, source, event_type),
            decreases list.len() - i,
        {
            let l = list[i];
            let to_event = self.find_subscription((l, source, Some(event_type)));
            let to_all = self.find_subscription((l, source, None));
            proof {
                assert(list@.take(i + 1).drop_last() =~= list@.take(i as int));
                assert(list@.take(i + 1).last() == l);
                if let Some(j) = to_event {
                    lemma_sub_at(self.subscriptions@, j as int);
                }
                if let Some(j) = to_all {
                    lemma_sub_at(self.subscriptions@, j as int);
                }
            }
            if to_event.is_some() || to_all.is_some() {
                targets.push(l);
            }
            i = i + 1;
        }
        assert(list@.take(list@.len() as int) =~= list@);
        proof { lemma_notified_len(list@, v.subscriptions, source, event_type); }
        let count = targets.len() as u32;
        self.locked = true;
        assert(self@.subscriptions =~= v.subscriptions);
        assert(self@.listeners =~= v.listeners);
        Ok((count, targets))
    }

    /// Ends the delivery started by `notify`, releasing the reentrancy lock.
    pub fn finish_notify(&mut self)
        requires
            old(self).wf(),
        ensures
            final(self).wf(),
            final(self)@ == (BrokerView { delivering: false, ..old(self)@ }),
    {
        self.locked = false;
        assert(self@.subscriptions =~= old(self)@.subscriptions);
        assert(self@.listeners =~= old(self)@.listeners);
    }
}

proof fn lemma_notified_sound(
    listeners: Seq<u64>,
    subs: Map<SubscriptionKey, u64>,
    source: u64,
    event_type: u64,
    i: int,
)
    requires
        0 <= i < notified_listeners(listeners, subs, source, event_type).len(),
    ensures
        ({
            let l = notified_listeners(listeners, subs, source, event_type)[i];
            &&& listeners.contains(l)
            &&& subs.contains_key((l, source, Some(event_type))) || subs.contains_key(
                (l, source, None),
            )
        }),
    decreases listeners.len(),
{
    let rest = notified_listeners(listeners.drop_last(), subs, source, event_type);
    if i < rest.len() {
        lemma_notified_sound(listeners.drop_last(), subs, source, event_type, i);
        let l = rest[i];
        let j = choose|j: int| 0 <= j < listeners.drop_last().len() && listeners.drop_last()[j] == l;
        assert(listeners[j] == l);
    } else {
        assert(listeners[listeners.len() - 1] == listeners.last());
    }
}

proof fn lemma_notified_no_duplicates(
    listeners: Seq<u64>,
    subs: Map<SubscriptionKey, u64>,
    source: u64,
    event_type: u64,
)
    requires
        listeners.no_duplicates(),
    ensures
        notified_listeners(listeners, subs, source, event_type).no_duplicates(),
    decreases listeners.len(),
{
    if listeners.len() > 0 {
        let rest = notified_listeners(listeners.drop_last(), subs, source, event_type);
        lemma_notified_no_duplicates(listeners.drop_last(), subs, source, event_type);
        let l = listeners.last();
        assert forall|i: int| 0 <= i < rest.len() implies rest[i] != l by {
            lemma_notified_sound(listeners.drop_last(), subs, source, event_type, i);
            let j = choose|j: int| 0 <= j < listeners.drop_last().len() && listeners.drop_last()[j] == rest[i];
            assert(listeners[j] == rest[i]);
        }
    }
}

/// A notification reaches exactly the listeners subscribed to its event
/// type or to all events of its source, each of them once.
pub proof fn law_notification_routing(v: BrokerView, source: u64, event_type: u64, l: u64)
    requires
        broker_consistent(v),
    ensures
        notified_listeners(v.listeners[source], v.subscriptions, source, event_type).contains(l)
            <==> (v.subscriptions.contains_key((l, source, Some(event_type)))
            || v.subscriptions.contains_key((l, source, None))),
        notified_listeners(v.listeners[source], v.subscriptions, source, event_type).no_duplicates(),
{
    let targets = notified_listeners(v.listeners[source], v.subscriptions, source, event_type);
    if v.subscriptions.contains_key((l, source, Some(event_type))) {
        lemma_notified_complete(v.listeners[source], v.subscriptions, source, event_type, l);
    } else if v.subscriptions.contains_key((l, source, None)) {
        lemma_notified_complete(v.listeners[source], v.subscriptions, source, event_type, l);
    }
    if targets.contains(l) {
        let i = choose|i: int| 0 <= i < targets.len() && targets[i] == l;
        lemma_notified_sound(v.listeners[source], v.subscriptions, source, event_type, i);
    }
    lemma_notified_no_duplicates(v.listeners[source], v.subscriptions, source, event_type);
}

/// Every operation keeps the broker consistent: routing lists hold no
/// duplicates and every subscriber of a source is on its routing list.
pub proof fn law_broker_consistent(b: NotificationBrokerContract)
    requires
        b.wf(),
    ensures
        broker_consistent(b@),
{
}

} // verus!
