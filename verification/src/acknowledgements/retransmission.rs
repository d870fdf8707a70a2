//! The retransmission timer of one fragment: what it does when its time is
//! up, and when it is cancelled.
//!
//! A fragment that was sent awaits its acknowledgement. Each time the timer
//! runs out the fragment is sent again, over a fresh route, and the timer is
//! set anew. The policy decides how often: without a limit the fragment is
//! sent again until it is confirmed; with a limit it is given up once it was
//! sent again that often. A cancelled timer does nothing more.

use vstd::prelude::*;
use crate::acknowledgements::listener::AckError;
use crate::acknowledgements::pending::PendingAcksMap;
use crate::chunking::fragment::FragmentIdentifier;

verus! {

/// Where a fragment stands.
#[derive(Clone, Copy, Debug, PartialEq, Eq, Structural)]
pub enum FragmentState {
    /// Sent, and sent again `retries` times since; not confirmed yet.
    AwaitingAck { retries: u32 },
    /// Confirmed. Nothing follows.
    Confirmed,
    /// Given up. Nothing follows.
    Failed,
}

/// What can happen to a timer that waits.
#[derive(Clone, Copy, Debug, PartialEq, Eq, Structural)]
pub enum TimerEvent {
    /// The time is up.
    Timeout,
    /// The timer was cancelled: the acknowledgement has come.
    Cancelled,
}

/// What the timer does next.
#[derive(Clone, Copy, Debug, PartialEq, Eq, Structural)]
pub enum TimerAction {
    /// Send the fragment again, over a route computed now, and wait again.
    Resend,
    /// End without doing anything.
    Exit,
    /// End, and report that the fragment could not be delivered.
    GiveUp(AckError),
}

/// How often a fragment is sent again.
#[derive(Clone, Copy, Debug, PartialEq, Eq, Structural)]
pub struct RetryPolicy {
    /// The number of times a fragment is sent again before it is given up;
    /// `None` for no limit.
    pub max_retries: Option<u32>,
}

impl RetryPolicy {
    /// A fragment that was sent again `retries` times may be sent once
    /// more.
    pub open spec fn allows(self, retries: u32) -> bool {
        match self.max_retries {
            Some(limit) => retries < limit,
            None => true,
        }
    }

    pub fn unbounded() -> (policy: Self)
        ensures
            policy.max_retries is None,
    {
        RetryPolicy { max_retries: None }
    }

    pub fn bounded(max_retries: u32) -> (policy: Self)
        ensures
            policy.max_retries == Some(max_retries),
    {
        RetryPolicy { max_retries: Some(max_retries) }
    }
}

/// One more, as far as the counter goes.
pub open spec fn counted_up(retries: u32) -> u32 {
    if retries < u32::MAX {
        (retries + 1) as u32
    } else {
        retries
    }
}

/// The state that follows `state` on `event`, for a fragment that the table
/// still holds (`pending`) or holds no more.
pub open spec fn next_state(
    state: FragmentState,
    policy: RetryPolicy,
    event: TimerEvent,
    pending: bool,
) -> FragmentState {
    match state {
        FragmentState::AwaitingAck { retries } => match event {
            TimerEvent::Cancelled => FragmentState::Confirmed,
            TimerEvent::Timeout => if !pending {
                FragmentState::Confirmed
            } else if policy.allows(retries) {
                FragmentState::AwaitingAck { retries: counted_up(retries) }
            } else {
                FragmentState::Failed
            },
        },
        FragmentState::Confirmed => FragmentState::Confirmed,
        FragmentState::Failed => FragmentState::Failed,
    }
}

/// What the timer of the fragment `frag_id` does on `event` in `state`.
pub open spec fn next_action(
    frag_id: FragmentIdentifier,
    state: FragmentState,
    policy: RetryPolicy,
    event: TimerEvent,
    pending: bool,
) -> TimerAction {
    match state {
        FragmentState::AwaitingAck { retries } => match event {
            TimerEvent::Cancelled => TimerAction::Exit,
            TimerEvent::Timeout => if !pending {
                TimerAction::Exit
            } else if policy.allows(retries) {
                TimerAction::Resend
            } else {
                TimerAction::GiveUp(AckError::RetriesExhausted(frag_id))
            },
        },
        FragmentState::Confirmed => TimerAction::Exit,
        FragmentState::Failed => TimerAction::Exit,
    }
}

/// The retransmission timer of one fragment.
#[derive(Clone, Copy, Debug)]
pub struct RetransmissionTimer {
    pub frag_id: FragmentIdentifier,
    pub state: FragmentState,
    pub policy: RetryPolicy,
}

impl RetransmissionTimer {
    /// The timer of a fragment that was just sent.
    pub fn new(frag_id: FragmentIdentifier, policy: RetryPolicy) -> (timer: Self)
        ensures
            timer.frag_id == frag_id,
            timer.policy == policy,
            timer.state == (FragmentState::AwaitingAck { retries: 0 }),
    {
        RetransmissionTimer { frag_id, state: FragmentState::AwaitingAck { retries: 0 }, policy }
    }

    /// The timer has ended.
    pub open spec fn is_terminal(self) -> bool {
        self.state is Confirmed || self.state is Failed
    }

    pub fn has_ended(&self) -> (ended: bool)
        ensures
            ended == self.is_terminal(),
    {
        match self.state {
            FragmentState::AwaitingAck { .. } => false,
            _ => true,
        }
    }

    /// Takes the timer one step on. Time that is up means a resend only
    /// while the table still holds the fragment; a fragment that is given up
    /// leaves the table. Either the time is up or the timer is cancelled,
    /// never both: the one event that is handed in decides alone.
    pub fn on_event(&mut self, pending_acks: &mut PendingAcksMap, event: TimerEvent) -> (action:
        TimerAction)
        ensures
            final(self).frag_id == old(self).frag_id,
            final(self).policy == old(self).policy,
            final(self).state == next_state(
                old(self).state,
                old(self).policy,
                event,
                old(pending_acks)@.contains_key(old(self).frag_id),
            ),
            action == next_action(
                old(self).frag_id,
                old(self).state,
                old(self).policy,
                event,
                old(pending_acks)@.contains_key(old(self).frag_id),
            ),
            final(pending_acks)@ == if action is GiveUp {
                old(pending_acks)@.remove(old(self).frag_id)
            } else {
                old(pending_acks)@
            },
    {
        let retries = match self.state {
            FragmentState::AwaitingAck { retries } => retries,
            _ => {
                return TimerAction::Exit;
            },
        };
        match event {
            TimerEvent::Cancelled => {
                self.state = FragmentState::Confirmed;
                TimerAction::Exit
            },
            TimerEvent::Timeout => {
                if !pending_acks.is_pending(&self.frag_id) {
                    self.state = FragmentState::Confirmed;
                    return TimerAction::Exit;
                }
                let allowed = match self.policy.max_retries {
                    Some(limit) => retries < limit,
                    None => true,
                };
                if allowed {
                    let counted = if retries < u32::MAX {
                        retries + 1
                    } else {
                        retries
                    };
                    self.state = FragmentState::AwaitingAck { retries: counted };
                    TimerAction::Resend
                } else {
                    let _ = pending_acks.lookup_and_remove(&self.frag_id);
                    self.state = FragmentState::Failed;
                    TimerAction::GiveUp(AckError::RetriesExhausted(self.frag_id))
                }
            },
        }
    }
}

/// A timer that has ended stays as it is and does nothing, whatever
/// happens.
pub proof fn lemma_terminal_states_absorb(
    frag_id: FragmentIdentifier,
    state: FragmentState,
    policy: RetryPolicy,
    event: TimerEvent,
    pending: bool,
)
    requires
        state is Confirmed || state is Failed,
    ensures
        next_state(state, policy, event, pending) == state,
        next_action(frag_id, state, policy, event, pending) == TimerAction::Exit,
{
}

/// A cancelled timer ends at once, and neither sends nor reports.
pub proof fn lemma_cancellation_ends_quietly(
    frag_id: FragmentIdentifier,
    state: FragmentState,
    policy: RetryPolicy,
    pending: bool,
)
    ensures
        !(next_state(state, policy, TimerEvent::Cancelled, pending) is AwaitingAck),
        next_action(frag_id, state, policy, TimerEvent::Cancelled, pending) == TimerAction::Exit,
{
}

/// Under a limit, a fragment is never sent again more often than the limit
/// says.
pub proof fn lemma_retries_stay_within_limit(
    state: FragmentState,
    policy: RetryPolicy,
    event: TimerEvent,
    pending: bool,
)
    requires
        policy.max_retries is Some,
        state matches FragmentState::AwaitingAck { retries } ==> retries
            <= policy.max_retries.unwrap(),
    ensures
        next_state(state, policy, event, pending) matches FragmentState::AwaitingAck { retries }
            ==> retries <= policy.max_retries.unwrap(),
{
}

} // verus!
