//! What the engine reports of an operation that succeeded.
use vstd::prelude::*;
use crate::address::AccountId;
use crate::multi_signature_account::call_views;
use crate::pending_call::{PendingCall, PendingCallView};

verus! {

/// Something an observer of the engine is told.
#[derive(Clone, Copy, Debug, PartialEq, Eq)]
pub enum Event {
    /// An account was created: (creator, created).
    MultiSignatureAccountCreated(AccountId, AccountId),
    /// An account was updated: (updater, updated).
    MultiSignatureAccountUpdated(AccountId, AccountId),
    /// A call was authored: (author, call id).
    NewCallAuthored(AccountId, [u8; 32]),
    /// A call was approved: (account, approver).
    ApprovalAdded(AccountId, AccountId),
    /// The approval of a call was taken back: (account, approver).
    ApprovalRemoved(AccountId, AccountId),
    /// A call reached its quorum and left the queue to be executed: (call id).
    CallExecuted([u8; 32]),
    /// An account has a new quorum: (account, new quorum).
    MinApprovalsChanged(AccountId, u32),
    /// A new quorum was proposed: (account, proposer, proposed quorum).
    MinApprovalProposed(AccountId, AccountId, u32),
    /// A proposed quorum was approved: (account, approver).
    MinApprovalProposalApproved(AccountId, AccountId),
    /// The approval of a proposed quorum was taken back: (account, revoker).
    MinApprovalProposalRevoked(AccountId, AccountId),
    /// A call reached its quorum and left the queue, and its execution
    /// failed: (call id).
    CallFailed([u8; 32]),
}

/// The result of an operation that succeeded.
#[derive(Clone, Debug)]
pub struct Outcome {
    /// The events to publish, in order.
    pub events: Vec<Event>,
    /// The calls that reached their quorum in this operation, in the order
    /// in which the host executes them under the account's own identity.
    /// They have left the queue, whatever their execution gives.
    pub executed: Vec<PendingCall>,
}

/// What an [`Outcome`] holds, as mathematical values.
pub struct OutcomeView {
    pub events: Seq<Event>,
    pub executed: Seq<PendingCallView>,
}

impl View for Outcome {
    type V = OutcomeView;

    open spec fn view(&self) -> OutcomeView {
        OutcomeView { events: self.events@, executed: call_views(self.executed@) }
    }
}

/// The `CallExecuted` events of `calls`, in order.
pub open spec fn execution_events(calls: Seq<PendingCallView>) -> Seq<Event> {
    calls.map_values(|c: PendingCallView| Event::CallExecuted(c.id))
}

/// What a command reports once the host has tried the calls that left the
/// queue.
#[derive(Clone, Debug)]
pub struct Settlement {
    /// The events to publish, in order.
    pub events: Vec<Event>,
    /// The place, among the executed calls, of the first whose execution
    /// failed. The command reports that failure to its caller; what the
    /// engine did to the state stands whatever the executions gave.
    pub failed: Option<usize>,
}

/// Whether `event` tells of the execution of a call.
pub open spec fn is_execution(event: Event) -> bool {
    event matches Event::CallExecuted(_)
}

/// How many of the first `i` events tell of the execution of a call.
pub open spec fn executions_before(events: Seq<Event>, i: int) -> nat
    decreases i,
{
    if i <= 0 {
        0
    } else {
        executions_before(events, i - 1) + if is_execution(events[i - 1]) {
            1nat
        } else {
            0nat
        }
    }
}

/// Whether the execution of the call at place `k` is known to have failed.
/// A call of which nothing is said counts as executed.
pub open spec fn has_failed(succeeded: Seq<bool>, k: int) -> bool {
    0 <= k < succeeded.len() && !succeeded[k]
}

/// The event at place `i` as it is published: the execution of a call whose
/// execution failed becomes `CallFailed`, every other event stays. The
/// executions are counted in order, so the k-th of them belongs to the k-th
/// executed call, also where two calls have one identifier.
pub open spec fn settled_event(events: Seq<Event>, succeeded: Seq<bool>, i: int) -> Event {
    match events[i] {
        Event::CallExecuted(id) => if has_failed(succeeded, executions_before(events, i) as int) {
            Event::CallFailed(id)
        } else {
            events[i]
        },
        _ => events[i],
    }
}

/// The events as they are published, given which executions succeeded.
pub open spec fn settled_events(events: Seq<Event>, succeeded: Seq<bool>) -> Seq<Event> {
    Seq::new(events.len(), |i: int| settled_event(events, succeeded, i))
}

/// Whether the call at place `k` is the first whose execution failed.
pub open spec fn is_first_failure(succeeded: Seq<bool>, k: int) -> bool {
    &&& has_failed(succeeded, k)
    &&& forall|j: int| 0 <= j < k ==> succeeded[j]
}

/// What a command reports once the host has tried the calls of `outcome`:
/// `succeeded` says of each executed call, in order, whether its execution
/// succeeded.
///
/// Every event is published; the execution of a call that failed is
/// published as `CallFailed`. The first failure, if there is one, is what
/// the command reports to its caller.
pub fn settle(outcome: Outcome, succeeded: &Vec<bool>) -> (settlement: Settlement)
    ensures
        settlement.events@ == settled_events(outcome.events@, succeeded@),
        match settlement.failed {
            Some(k) => is_first_failure(succeeded@, k as int),
            None => forall|k: int| 0 <= k < succeeded@.len() ==> succeeded@[k],
        },
{
    let mut events: Vec<Event> = Vec::new();
    let mut executions: usize = 0;
    let mut i: usize = 0;
    while i < outcome.events.len()
        invariant
            i <= outcome.events@.len(),
            executions <= i,
            executions == executions_before(outcome.events@, i as int),
            events@ == settled_events(outcome.events@, succeeded@).take(i as int),
        decreases outcome.events@.len() - i,
    {
        let event: Event = outcome.events[i];
        match event {
            Event::CallExecuted(id) => {
                if executions < succeeded.len() && !succeeded[executions] {
                    events.push(Event::CallFailed(id));
                } else {
                    events.push(event);
                }
                executions += 1;
            },
            _ => {
                events.push(event);
            },
        }
        proof {
            let all = settled_events(outcome.events@, succeeded@);
            assert(all.take(i + 1) =~= all.take(i as int).push(all[i as int]));
        }
        i += 1;
    }
    proof {
        let all = settled_events(outcome.events@, succeeded@);
        assert(all.take(all.len() as int) =~= all);
    }
    let mut failed: Option<usize> = None;
    let mut k: usize = 0;
    while k < succeeded.len() && failed.is_none()
        invariant
            k <= succeeded@.len(),
            match failed {
                Some(first) => is_first_failure(succeeded@, first as int),
                None => forall|j: int| 0 <= j < k ==> succeeded@[j],
            },
        decreases succeeded@.len() - k + if failed is None { 1int } else { 0int },
    {
        if !succeeded[k] {
            failed = Some(k);
        } else {
            k += 1;
        }
    }
    Settlement { events, failed }
}

} // verus!
