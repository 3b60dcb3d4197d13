use chat_core::queue::{ErrorCode, OutboundFrame, OutboundQueue, OverflowPolicy};
use chat_core::session::{transition, EnqueueOutcome, Session, SessionEvent, SessionState};

fn event(n: u8) -> OutboundFrame {
    OutboundFrame::Event { channel_id: 1, sender_id: 2, payload: vec![n] }
}

fn payload_of(f: Option<OutboundFrame>) -> Option<u8> {
    match f {
        Some(OutboundFrame::Event { payload, .. }) => Some(payload[0]),
        _ => None,
    }
}

#[test]
fn drop_oldest_keeps_newest_frames() {
    let mut q = OutboundQueue::new(3);
    let mut dropped = 0;
    for n in 0..10u8 {
        if q.push_drop_oldest(event(n)) {
            dropped += 1;
        }
        assert!(q.len() <= 3);
    }
    assert_eq!(dropped, 7);
    assert_eq!(payload_of(q.pop()), Some(7));
    assert_eq!(payload_of(q.pop()), Some(8));
    assert_eq!(payload_of(q.pop()), Some(9));
    assert!(q.pop().is_none());
}

#[test]
fn queue_below_capacity_keeps_all() {
    let mut q = OutboundQueue::new(4);
    assert!(!q.push_drop_oldest(event(1)));
    assert!(!q.push_drop_oldest(event(2)));
    assert_eq!(q.len(), 2);
    assert!(!q.is_full());
    assert_eq!(payload_of(q.pop()), Some(1));
}

#[test]
fn try_push_refuses_when_full() {
    let mut q = OutboundQueue::new(1);
    assert!(q.try_push(OutboundFrame::Ack));
    assert!(q.is_full());
    assert!(!q.try_push(OutboundFrame::Error { code: ErrorCode::Malformed, detail: vec![] }));
    assert_eq!(q.len(), 1);
    assert_eq!(q.capacity(), 1);
    q.clear();
    assert_eq!(q.len(), 0);
}

#[test]
fn lifecycle_transitions() {
    assert_eq!(transition(SessionState::Connecting, SessionEvent::AuthSucceeded), SessionState::Active);
    assert_eq!(transition(SessionState::Connecting, SessionEvent::AuthFailed), SessionState::Closed);
    assert_eq!(transition(SessionState::Active, SessionEvent::Drain), SessionState::Draining);
    assert_eq!(transition(SessionState::Draining, SessionEvent::Close), SessionState::Closed);
    assert_eq!(transition(SessionState::Active, SessionEvent::AuthSucceeded), SessionState::Active);
    assert_eq!(transition(SessionState::Closed, SessionEvent::AuthSucceeded), SessionState::Closed);
    assert_eq!(transition(SessionState::Connecting, SessionEvent::Close), SessionState::Closed);
}

#[test]
fn session_rejects_frames_until_active() {
    let mut s = Session::new(1, 2, 2, OverflowPolicy::DropOldest);
    assert_eq!(s.enqueue(OutboundFrame::Ack), EnqueueOutcome::Rejected);
    s.apply(SessionEvent::AuthSucceeded);
    assert_eq!(s.enqueue(OutboundFrame::Ack), EnqueueOutcome::Queued);
    assert_eq!(s.queued_len(), 1);
}

#[test]
fn session_drop_oldest_policy() {
    let mut s = Session::new(1, 2, 2, OverflowPolicy::DropOldest);
    s.apply(SessionEvent::AuthSucceeded);
    assert_eq!(s.enqueue(event(1)), EnqueueOutcome::Queued);
    assert_eq!(s.enqueue(event(2)), EnqueueOutcome::Queued);
    assert_eq!(s.enqueue(event(3)), EnqueueOutcome::DroppedOldest);
    assert_eq!(s.state(), SessionState::Active);
    assert_eq!(payload_of(s.next_outbound()), Some(2));
    assert_eq!(payload_of(s.next_outbound()), Some(3));
    assert!(s.next_outbound().is_none());
}

#[test]
fn session_disconnect_policy_drains() {
    let mut s = Session::new(1, 2, 1, OverflowPolicy::Disconnect);
    s.apply(SessionEvent::AuthSucceeded);
    assert_eq!(s.enqueue(event(1)), EnqueueOutcome::Queued);
    assert_eq!(s.enqueue(event(2)), EnqueueOutcome::Overflowed);
    assert_eq!(s.state(), SessionState::Draining);
    assert_eq!(s.enqueue(event(3)), EnqueueOutcome::Rejected);
    assert_eq!(payload_of(s.next_outbound()), Some(1));
}

#[test]
fn close_releases_once() {
    let mut s = Session::new(7, 8, 2, OverflowPolicy::DropOldest);
    s.apply(SessionEvent::AuthSucceeded);
    s.enqueue(OutboundFrame::Ack);
    assert!(s.apply(SessionEvent::Close));
    assert_eq!(s.queued_len(), 0);
    assert!(!s.apply(SessionEvent::Close));
    assert_eq!(s.state(), SessionState::Closed);
    assert_eq!(s.connection_id(), 7);
    assert_eq!(s.user_id(), 8);
}

#[test]
fn failed_authentication_closes() {
    let mut s = Session::new(1, 2, 1, OverflowPolicy::DropOldest);
    assert!(s.apply(SessionEvent::AuthFailed));
    assert_eq!(s.state(), SessionState::Closed);
}

#[test]
fn full_session_keeps_length_under_drop_oldest() {
    let mut s = Session::new(1, 2, 3, OverflowPolicy::DropOldest);
    s.apply(SessionEvent::AuthSucceeded);
    for n in 0..3u8 {
        s.enqueue(event(n));
    }
    assert_eq!(s.enqueue(event(3)), EnqueueOutcome::DroppedOldest);
    assert_eq!(s.queued_len(), 3);
    assert_eq!(s.state(), SessionState::Active);
    assert_eq!(payload_of(s.next_outbound()), Some(1));
}
