//! An upgradable contract whose sensitive admin actions go through a
//! 24-hour timelock, with a simple persistent counter.
use std::collections::HashMap;
use vstd::prelude::*;

verus! {

broadcast use vstd::std_specs::hash::group_hash_axioms;

/// Minimum delay before a queued operation may execute (24 hours).
pub const MIN_DELAY_SECONDS: u64 = 86_400;

#[derive(Clone, Copy, Debug, PartialEq, Eq, Structural)]
pub enum ContractError {
    AlreadyInitialized,
    Unauthorized,
    NotInitialized,
    OperationAlreadyQueued,
    OperationNotFound,
    OperationNotReady,
    OperationExpired,
    InvalidDelay,
    /// A counter or timestamp leaves its integer type; the deployed contract
    /// aborts the invocation in that case.
    Overflow,
}

/// A sensitive action that must wait out the timelock.
#[derive(Clone, Copy, Debug, PartialEq, Eq)]
pub enum TimelockAction {
    /// Replace the contract's code with the code of this hash.
    Upgrade([u8; 32]),
    /// Hand the admin role to this account.
    SetAdmin(u64),
}

/// A queued action with its proposer and timing.
#[derive(Clone, Copy, Debug, PartialEq, Eq)]
pub struct QueuedOperation {
    pub proposer: u64,
    pub action: TimelockAction,
    pub execute_after: u64,
    pub created_at: u64,
}

/// The contract's observable state.
pub struct UpgradableView {
    pub admin: Option<u64>,
    pub counter: u32,
    pub next_operation_id: u32,
    pub operations: Map<u32, QueuedOperation>,
}

/// The error of an admin-only call by `caller`, if any.
pub open spec fn admin_error(v: UpgradableView, caller: u64) -> Option<ContractError> {
    match v.admin {
        None => Some(ContractError::NotInitialized),
        Some(a) => if a != caller {
            Some(ContractError::Unauthorized)
        } else {
            None
        },
    }
}

/// The contract's invariant: nothing is queued before initialization, and
/// every queued operation has an id below the next one to be issued.
pub open spec fn timelock_consistent(v: UpgradableView) -> bool {
    &&& v.admin is None ==> v.operations.is_empty() && v.next_operation_id == 0
    &&& forall|id: u32| #[trigger] v.operations.contains_key(id) ==> id < v.next_operation_id
}

/// Why queueing by `proposer` at `now` is refused, if it is: the caller is
/// not the admin, or the unlock time or the next id leaves its type.
pub open spec fn queue_error(v: UpgradableView, proposer: u64, now: u64) -> Option<ContractError> {
    match admin_error(v, proposer) {
        Some(e) => Some(e),
        None => if now + MIN_DELAY_SECONDS > u64::MAX || v.next_operation_id == u32::MAX {
            Some(ContractError::Overflow)
        } else {
            None
        },
    }
}

/// Why cancelling operation `id` by `canceller` is refused, if it is.
pub open spec fn cancel_error(v: UpgradableView, canceller: u64, id: u32) -> Option<ContractError> {
    match admin_error(v, canceller) {
        Some(e) => Some(e),
        None => if !v.operations.contains_key(id) {
            Some(ContractError::OperationNotFound)
        } else {
            None
        },
    }
}

/// Why executing operation `id` by `executor` at `now` is refused, if it is.
pub open spec fn execute_error(v: UpgradableView, executor: u64, id: u32, now: u64) -> Option<
    ContractError,
> {
    match admin_error(v, executor) {
        Some(e) => Some(e),
        None => if !v.operations.contains_key(id) {
            Some(ContractError::OperationNotFound)
        } else if now < v.operations[id].execute_after {
            Some(ContractError::OperationNotReady)
        } else {
            None
        },
    }
}

/// The state after `proposer` queued `action` at `now`.
pub open spec fn after_queue(v: UpgradableView, proposer: u64, action: TimelockAction, now: u64) -> UpgradableView {
    UpgradableView {
        next_operation_id: (v.next_operation_id + 1) as u32,
        operations: v.operations.insert(
            v.next_operation_id,
            QueuedOperation {
                proposer,
                action,
                execute_after: (now + MIN_DELAY_SECONDS) as u64,
                created_at: now,
            },
        ),
        ..v
    }
}

/// The state after operation `id` ran: it is no longer queued, and a
/// `SetAdmin` has taken effect.
pub open spec fn after_execute(v: UpgradableView, id: u32) -> UpgradableView {
    UpgradableView {
        admin: match v.operations[id].action {
            TimelockAction::SetAdmin(a) => Some(a),
            TimelockAction::Upgrade(_) => v.admin,
        },
        operations: v.operations.remove(id),
        ..v
    }
}

/// The upgradable contract's state.
pub struct UpgradableContract {
    admin: Option<u64>,
    counter: u32,
    next_operation_id: u32,
    operations: HashMap<u32, QueuedOperation>,
}

impl View for UpgradableContract {
    type V = UpgradableView;

    closed spec fn view(&self) -> UpgradableView {
        UpgradableView {
            admin: self.admin,
            counter: self.counter,
            next_operation_id: self.next_operation_id,
            operations: self.operations@,
        }
    }
}

impl UpgradableContract {
    pub fn new() -> (c: UpgradableContract)
        ensures
            c@.admin is None,
            c@.counter == 0,
            c@.next_operation_id == 0,
            c@.operations == Map::<u32, QueuedOperation>::empty(),
            timelock_consistent(c@),
    {
        UpgradableContract { admin: None, counter: 0, next_operation_id: 0, operations: HashMap::new() }
    }

    /// The code version of this contract.
    pub fn version() -> (v: u32)
        ensures
            v == 1,
    {
        1
    }

    /// Why an admin-only call by `caller` is refused, if it is: not
    /// initialized, or `caller` is not the admin.
    pub fn admin_refusal(&self, caller: u64) -> (r: Option<ContractError>)
        ensures
            r == admin_error(self@, caller),
    {
        match self.admin {
            None => Some(ContractError::NotInitialized),
            Some(a) => if a != caller {
                Some(ContractError::Unauthorized)
            } else {
                None
            },
        }
    }

    /// Whether an admin has been recorded.
    pub fn is_initialized(&self) -> (b: bool)
        ensures
            b == self@.admin is Some,
    {
        self.admin.is_some()
    }

    /// Whether operation `operation_id` is queued.
    pub fn has_operation(&self, operation_id: u32) -> (b: bool)
        ensures
            b == self@.operations.contains_key(operation_id),
    {
        self.operations.contains_key(&operation_id)
    }

    /// Why `queue_operation(proposer, _, now)` would be refused, if it
    /// would.
    pub fn queue_refusal(&self, proposer: u64, now: u64) -> (r: Option<ContractError>)
        ensures
            r == queue_error(self@, proposer, now),
    {
        if let Some(e) = self.admin_refusal(proposer) {
            return Some(e);
        }
        if now > u64::MAX - MIN_DELAY_SECONDS || self.next_operation_id == u32::MAX {
            return Some(ContractError::Overflow);
        }
        None
    }

    /// Why `cancel_operation(canceller, operation_id)` would be refused, if
    /// it would.
    pub fn cancel_refusal(&self, canceller: u64, operation_id: u32) -> (r: Option<ContractError>)
        ensures
            r == cancel_error(self@, canceller, operation_id),
    {
        if let Some(e) = self.admin_refusal(canceller) {
            return Some(e);
        }
        if !self.operations.contains_key(&operation_id) {
            return Some(ContractError::OperationNotFound);
        }
        None
    }

    /// Why `execute_operation(executor, operation_id, now)` would be
    /// refused, if it would.
    pub fn execute_refusal(&self, executor: u64, operation_id: u32, now: u64) -> (r: Option<
        ContractError,
    >)
        ensures
            r == execute_error(self@, executor, operation_id, now),
    {
        if let Some(e) = self.admin_refusal(executor) {
            return Some(e);
        }
        match self.operations.get(&operation_id) {
            None => Some(ContractError::OperationNotFound),
            Some(op) => if now < op.execute_after {
                Some(ContractError::OperationNotReady)
            } else {
                None
            },
        }
    }

    /// Records the admin and starts operation ids at 0. Only before
    /// initialization.
    pub fn init(&mut self, admin: u64)
        requires
            timelock_consistent(old(self)@),
            old(self)@.admin is None,
        ensures
            timelock_consistent(final(self)@),
            final(self)@ == (UpgradableView {
                admin: Some(admin),
                next_operation_id: 0,
                ..old(self)@
            }),
    {
        self.admin = Some(admin);
        self.next_operation_id = 0;
    }

    /// Queues `action`, proposed by the admin at `now`, to run no earlier
    /// than 24 hours later. Returns the operation's id, which was free.
    pub fn queue_operation(&mut self, proposer: u64, action: TimelockAction, now: u64) -> (r: u32)
        requires
            timelock_consistent(old(self)@),
            queue_error(old(self)@, proposer, now) is None,
        ensures
            timelock_consistent(final(self)@),
            r == old(self)@.next_operation_id,
            !old(self)@.operations.contains_key(r),
            final(self)@ == after_queue(old(self)@, proposer, action, now),
    {
        let id = self.next_operation_id;
        let execute_after = now + MIN_DELAY_SECONDS;
        let op = QueuedOperation { proposer, action, execute_after, created_at: now };
        self.operations.insert(id, op);
        self.next_operation_id = id + 1;
        id
    }

    /// The queued operation with id `operation_id`, which must be queued.
    pub fn get_operation(&self, operation_id: u32) -> (r: QueuedOperation)
        requires
            self@.operations.contains_key(operation_id),
        ensures
            r == self@.operations[operation_id],
    {
        *self.operations.get(&operation_id).unwrap()
    }

    /// Removes a queued operation before it runs. Admin only.
    pub fn cancel_operation(&mut self, canceller: u64, operation_id: u32)
        requires
            timelock_consistent(old(self)@),
            cancel_error(old(self)@, canceller, operation_id) is None,
        ensures
            timelock_consistent(final(self)@),
            final(self)@ == (UpgradableView {
                operations: old(self)@.operations.remove(operation_id),
                ..old(self)@
            }),
    {
        self.operations.remove(&operation_id);
    }

    /// Runs a queued operation once its delay has passed, removing it from
    /// the queue. A `SetAdmin` takes effect here; the executed action is
    /// returned so that the host can carry out an `Upgrade`. Admin only.
    pub fn execute_operation(&mut self, executor: u64, operation_id: u32, now: u64) -> (r:
        TimelockAction)
        requires
            timelock_consistent(old(self)@),
            execute_error(old(self)@, executor, operation_id, now) is None,
        ensures
            timelock_consistent(final(self)@),
            r == old(self)@.operations[operation_id].action,
            final(self)@ == after_execute(old(self)@, operation_id),
    {
        let op = *self.operations.get(&operation_id).unwrap();
        self.operations.remove(&operation_id);
        match op.action {
            TimelockAction::SetAdmin(new_admin) => {
                self.admin = Some(new_admin);
            },
            TimelockAction::Upgrade(_) => {},
        }
        op.action
    }

    /// Immediate upgrade by the admin; returns the hash of the code to
    /// install.
    pub fn upgrade(&self, caller: u64, new_wasm_hash: [u8; 32]) -> (r: [u8; 32])
        requires
            admin_error(self@, caller) is None,
        ensures
            r == new_wasm_hash,
    {
        new_wasm_hash
    }

    /// Immediate admin transfer by the current admin.
    pub fn set_admin(&mut self, current_admin: u64, new_admin: u64)
        requires
            timelock_consistent(old(self)@),
            admin_error(old(self)@, current_admin) is None,
        ensures
            timelock_consistent(final(self)@),
            final(self)@ == (UpgradableView { admin: Some(new_admin), ..old(self)@ }),
    {
        self.admin = Some(new_admin);
    }

    /// The current admin; only after initialization.
    pub fn get_admin(&self) -> (r: u64)
        requires
            self@.admin is Some,
        ensures
            r == self@.admin.unwrap(),
    {
        self.admin.unwrap()
    }

    /// Adds one to the counter and returns the new count; the counter must
    /// be below `u32::MAX`.
    pub fn increment(&mut self) -> (r: u32)
        requires
            old(self)@.counter < u32::MAX,
        ensures
            r == old(self)@.counter + 1,
            final(self)@ == (UpgradableView { counter: r, ..old(self)@ }),
    {
        self.counter = self.counter + 1;
        self.counter
    }

    /// The counter's value.
    pub fn get_count(&self) -> (c: u32)
        ensures
            c == self@.counter,
    {
        self.counter
    }
}

/// Operation ids are never reused: every queued operation has an id below
/// the next one to be issued, so the next id is free, and since that
/// counter only grows, an executed or cancelled operation's id never names
/// an operation again.
pub proof fn law_operation_ids_fresh(v: UpgradableView, id: u32)
    requires
        timelock_consistent(v),
        v.operations.contains_key(id),
    ensures
        id < v.next_operation_id,
        !v.operations.contains_key(v.next_operation_id),
{
}

/// An operation queued at `now` can be executed by the admin exactly from
/// `now + MIN_DELAY_SECONDS` on; before that it is refused as not ready.
pub proof fn law_timelock_delay(v: UpgradableView, proposer: u64, action: TimelockAction, now: u64, t: u64)
    requires
        timelock_consistent(v),
        queue_error(v, proposer, now) is None,
    ensures
        ({
            let q = after_queue(v, proposer, action, now);
            &&& t >= now + MIN_DELAY_SECONDS ==> execute_error(q, proposer, v.next_operation_id, t) is None
            &&& t < now + MIN_DELAY_SECONDS ==> execute_error(q, proposer, v.next_operation_id, t)
                == Some(ContractError::OperationNotReady)
        }),
{
}

/// An operation runs at most once: after it was executed, or cancelled,
/// executing or cancelling it again is refused as not found.
pub proof fn law_operation_runs_once(v: UpgradableView, id: u32, caller: u64, t: u64)
    requires
        execute_error(v, caller, id, t) is None,
    ensures
        ({
            let e = after_execute(v, id);
            let c = UpgradableView { operations: v.operations.remove(id), ..v };
            &&& admin_error(e, caller) is None ==> execute_error(e, caller, id, t) == Some(ContractError::OperationNotFound)
            &&& admin_error(e, caller) is None ==> cancel_error(e, caller, id) == Some(ContractError::OperationNotFound)
            &&& execute_error(c, caller, id, t) == Some(ContractError::OperationNotFound)
            &&& cancel_error(c, caller, id) == Some(ContractError::OperationNotFound)
        }),
{
}

} // verus!
