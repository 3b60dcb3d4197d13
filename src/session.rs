//! One authenticated connection: its lifecycle and its outbound queue.

use vstd::prelude::*;
use crate::queue::{OutboundFrame, OutboundQueue, OverflowPolicy, pushed};

verus! {

#[derive(Clone, Copy, Debug, PartialEq, Eq, Structural)]
pub enum SessionState {
    /// Upgraded, waiting for the authenticator.
    Connecting,
    Active,
    /// No new outbound frames; inbound frames are still handled.
    Draining,
    /// Terminal; queue released.
    Closed,
}

/// What happens to a session.
#[derive(Clone, Copy, Debug, PartialEq, Eq, Structural)]
pub enum SessionEvent {
    AuthSucceeded,
    AuthFailed,
    /// The queue overflowed, or the gateway shuts the connection down gently.
    Drain,
    /// Explicit close, transport error or forced eviction.
    Close,
}

/// The lifecycle's transitions. Events that do not apply leave the state.
pub open spec fn next_state(s: SessionState, e: SessionEvent) -> SessionState {
    match e {
        SessionEvent::AuthSucceeded => if s == SessionState::Connecting {
            SessionState::Active
        } else {
            s
        },
        SessionEvent::AuthFailed => if s == SessionState::Connecting {
            SessionState::Closed
        } else {
            s
        },
        SessionEvent::Drain => if s == SessionState::Active {
            SessionState::Draining
        } else {
            s
        },
        SessionEvent::Close => SessionState::Closed,
    }
}

/// The state that follows `s` on event `e`.
pub fn transition(s: SessionState, e: SessionEvent) -> (r: SessionState)
    ensures
        r == next_state(s, e),
{
    match e {
        SessionEvent::AuthSucceeded => if s == SessionState::Connecting {
            SessionState::Active
        } else {
            s
        },
        SessionEvent::AuthFailed => if s == SessionState::Connecting {
            SessionState::Closed
        } else {
            s
        },
        SessionEvent::Drain => if s == SessionState::Active {
            SessionState::Draining
        } else {
            s
        },
        SessionEvent::Close => SessionState::Closed,
    }
}

/// What became of a frame handed to a session.
#[derive(Clone, Copy, Debug, PartialEq, Eq, Structural)]
pub enum EnqueueOutcome {
    Queued,
    /// Queued after dropping the oldest frame.
    DroppedOldest,
    /// The queue was full under the disconnect policy: the frame was refused
    /// and the session now drains.
    Overflowed,
    /// The session is not active; the frame was refused.
    Rejected,
}

/// A session's state, queue and policy after `f` is handed to it.
pub open spec fn enqueue_result(
    state: SessionState,
    q: Seq<OutboundFrame>,
    cap: nat,
    policy: OverflowPolicy,
    f: OutboundFrame,
) -> (SessionState, Seq<OutboundFrame>, EnqueueOutcome) {
    if state != SessionState::Active {
        (state, q, EnqueueOutcome::Rejected)
    } else if q.len() < cap {
        (state, q.push(f), EnqueueOutcome::Queued)
    } else if policy == OverflowPolicy::DropOldest {
        (state, pushed(q, cap, f), EnqueueOutcome::DroppedOldest)
    } else {
        (SessionState::Draining, q, EnqueueOutcome::Overflowed)
    }
}

/// This call moved the session from `s` into `Closed`.
pub open spec fn closes(s: SessionState, t: SessionState) -> bool {
    s != SessionState::Closed && t == SessionState::Closed
}

pub struct Session {
    connection_id: u64,
    user_id: u64,
    state: SessionState,
    policy: OverflowPolicy,
    queue: OutboundQueue,
}

impl Session {
    pub closed spec fn connection(&self) -> u64 {
        self.connection_id
    }

    pub closed spec fn user(&self) -> u64 {
        self.user_id
    }

    pub closed spec fn state_spec(&self) -> SessionState {
        self.state
    }

    pub closed spec fn policy_spec(&self) -> OverflowPolicy {
        self.policy
    }

    pub closed spec fn queued(&self) -> Seq<OutboundFrame> {
        self.queue@
    }

    pub closed spec fn cap(&self) -> nat {
        self.queue.cap()
    }

    pub closed spec fn wf(&self) -> bool {
        self.queue.wf() && (self.state == SessionState::Closed ==> self.queue@.len() == 0)
    }

    /// The queue has room for at least one frame and never holds more than
    /// its capacity; a closed session holds none.
    pub proof fn lemma_wf(&self)
        requires
            self.wf(),
        ensures
            0 < self.cap(),
            self.queued().len() <= self.cap(),
            self.state_spec() == SessionState::Closed ==> self.queued().len() == 0,
    {
    }

    /// Session `t` is this session after event `e`: the state follows the
    /// lifecycle, the queue is emptied when `e` closed it and kept
    /// otherwise, and the rest is kept.
    pub open spec fn applied(self, t: Session, e: SessionEvent) -> bool {
        &&& t.state_spec() == next_state(self.state_spec(), e)
        &&& closes(self.state_spec(), t.state_spec()) ==> t.queued() == Seq::<OutboundFrame>::empty()
        &&& !closes(self.state_spec(), t.state_spec()) ==> t.queued() == self.queued()
        &&& t.connection() == self.connection()
        &&& t.user() == self.user()
        &&& t.cap() == self.cap()
        &&& t.policy_spec() == self.policy_spec()
    }

    /// A full active session under drop-oldest takes a new frame by dropping
    /// its oldest one: the queue keeps its length, the newest frames in
    /// order, and the session stays active.
    pub proof fn lemma_full_queue_drops_oldest(&self, f: OutboundFrame)
        requires
            self.wf(),
            self.state_spec() == SessionState::Active,
            self.policy_spec() == OverflowPolicy::DropOldest,
            self.queued().len() == self.cap(),
        ensures
            enqueue_result(self.state_spec(), self.queued(), self.cap(), self.policy_spec(), f) == (
                SessionState::Active,
                self.queued().drop_first().push(f),
                EnqueueOutcome::DroppedOldest,
            ),
            self.queued().drop_first().push(f).len() == self.cap(),
    {
    }

    /// A session for a freshly upgraded connection, waiting for
    /// authentication, whose queue holds at most `capacity` frames.
    pub fn new(connection_id: u64, user_id: u64, capacity: usize, policy: OverflowPolicy) -> (r:
        Session)
        requires
            capacity > 0,
        ensures
            r.wf(),
            r.connection() == connection_id,
            r.user() == user_id,
            r.state_spec() == SessionState::Connecting,
            r.policy_spec() == policy,
            r.queued() == Seq::<OutboundFrame>::empty(),
            r.cap() == capacity,
    {
        Session {
            connection_id,
            user_id,
            state: SessionState::Connecting,
            policy,
            queue: OutboundQueue::new(capacity),
        }
    }

    pub fn connection_id(&self) -> (r: u64)
        ensures
            r == self.connection(),
    {
        self.connection_id
    }

    pub fn user_id(&self) -> (r: u64)
        ensures
            r == self.user(),
    {
        self.user_id
    }

    pub fn state(&self) -> (r: SessionState)
        ensures
            r == self.state_spec(),
    {
        self.state
    }

    pub fn queued_len(&self) -> (r: usize)
        ensures
            r == self.queued().len(),
    {
        self.queue.len()
    }

    /// Moves the session along its lifecycle. Entering `Closed` releases the
    /// queue; the result says whether this call did so, which is true once
    /// in the session's life.
    pub fn apply(&mut self, e: SessionEvent) -> (released: bool)
        requires
            old(self).wf(),
        ensures
            final(self).wf(),
            old(self).applied(*final(self), e),
            released == closes(old(self).state_spec(), final(self).state_spec()),
    {
        let next = transition(self.state, e);
        let released = self.state != SessionState::Closed && next == SessionState::Closed;
        self.state = next;
        if released {
            self.queue.clear();
        }
        released
    }

    /// Hands `f` to the session for writing to its client.
    pub fn enqueue(&mut self, f: OutboundFrame) -> (r: EnqueueOutcome)
        requires
            old(self).wf(),
        ensures
            final(self).wf(),
            (final(self).state_spec(), final(self).queued(), r) == enqueue_result(
                old(self).state_spec(),
                old(self).queued(),
                old(self).cap(),
                old(self).policy_spec(),
                f,
            ),
            final(self).connection() == old(self).connection(),
            final(self).user() == old(self).user(),
            final(self).policy_spec() == old(self).policy_spec(),
            final(self).cap() == old(self).cap(),
    {
        if self.state != SessionState::Active {
            return EnqueueOutcome::Rejected;
        }
        if !self.queue.is_full() {
            self.queue.push_drop_oldest(f);
            EnqueueOutcome::Queued
        } else {
            match self.policy {
                OverflowPolicy::DropOldest => {
                    self.queue.push_drop_oldest(f);
                    EnqueueOutcome::DroppedOldest
                },
                OverflowPolicy::Disconnect => {
                    self.state = SessionState::Draining;
                    EnqueueOutcome::Overflowed
                },
            }
        }
    }

    /// Takes the oldest frame waiting for the client, if any.
    pub fn next_outbound(&mut self) -> (r: Option<OutboundFrame>)
        requires
            old(self).wf(),
        ensures
            final(self).wf(),
            old(self).queued().len() == 0 ==> r is None && final(self).queued() == old(self).queued(),
            old(self).queued().len() > 0 ==> r == Some(old(self).queued()[0]) && final(self).queued()
                == old(self).queued().drop_first(),
            final(self).state_spec() == old(self).state_spec(),
            final(self).connection() == old(self).connection(),
            final(self).user() == old(self).user(),
            final(self).policy_spec() == old(self).policy_spec(),
            final(self).cap() == old(self).cap(),
    {
        self.queue.pop()
    }
}

} // verus!
