use chat_core::bus::{backoff_ms, is_degraded, next_bus_step, BusAction, BusEvent, BusState};
use chat_core::gateway::{Envelope, Gateway, GatewayError};
use chat_core::models::{Channel, ChannelType, Member, PermissionOverride, Role, Server};
use chat_core::permission::{READ, WRITE};
use chat_core::queue::{OutboundFrame, OverflowPolicy};
use chat_core::registry::{ConnectionRegistry, RegistryError};
use chat_core::router::TopicRouter;
use chat_core::session::{EnqueueOutcome, SessionEvent, SessionState};

const OWNER: u64 = 1;
const ALICE: u64 = 2;
const BOB: u64 = 3;

fn server() -> Server {
    Server {
        id: 100,
        name: "srv".to_string(),
        icon_url: None,
        owner_id: OWNER,
        roles: vec![
            Role {
                role_id: 1,
                name: "@everyone".to_string(),
                permissions: READ | WRITE,
                color: "#ffffff".to_string(),
                position: 0,
            },
            Role {
                role_id: 2,
                name: "muted".to_string(),
                permissions: 0,
                color: "#000000".to_string(),
                position: 1,
            },
        ],
        channels: vec![10, 11],
        members: vec![],
        created_at: 0,
    }
}

fn text_channel(id: u64) -> Channel {
    Channel {
        id,
        server_id: 100,
        name: "general".to_string(),
        channel_type: ChannelType::Text,
        topic: None,
        position: 0,
        permissions: vec![PermissionOverride { role_id: 2, allow: 0, deny: WRITE }],
        created_at: 0,
    }
}

fn member(user: u64, roles: Vec<u64>) -> Member {
    Member { user_id: user, roles, joined_at: 0 }
}

fn event_payload(f: Option<OutboundFrame>) -> Option<Vec<u8>> {
    match f {
        Some(OutboundFrame::Event { payload, .. }) => Some(payload),
        _ => None,
    }
}

fn gateway_with_two_subscribers() -> Gateway {
    let mut g = Gateway::new(7, 8, OverflowPolicy::DropOldest);
    g.connect(20, Some(ALICE)).unwrap();
    g.connect(30, Some(BOB)).unwrap();
    let srv = server();
    let ch = text_channel(10);
    g.subscribe(20, &srv, &member(ALICE, vec![1]), &ch).unwrap();
    g.subscribe(30, &srv, &member(BOB, vec![1]), &ch).unwrap();
    g
}

#[test]
fn failed_authentication_creates_no_session() {
    let mut g = Gateway::new(7, 4, OverflowPolicy::DropOldest);
    assert_eq!(g.connect(20, None), Err(GatewayError::AuthFailure));
    assert_eq!(g.session_state(20), None);
}

#[test]
fn duplicate_connection_is_refused() {
    let mut g = Gateway::new(7, 4, OverflowPolicy::DropOldest);
    assert_eq!(g.connect(20, Some(ALICE)), Ok(()));
    assert_eq!(g.session_state(20), Some(SessionState::Active));
    assert_eq!(g.connect(20, Some(BOB)), Err(GatewayError::DuplicateConnection));
    assert_eq!(g.lookup(BOB), Vec::<u64>::new());
}

#[test]
fn lookup_returns_every_connection_of_a_user() {
    let mut g = Gateway::new(7, 4, OverflowPolicy::DropOldest);
    g.connect(20, Some(ALICE)).unwrap();
    g.connect(21, Some(ALICE)).unwrap();
    g.connect(30, Some(BOB)).unwrap();
    let mut conns = g.lookup(ALICE);
    conns.sort();
    assert_eq!(conns, vec![20, 21]);
}

#[test]
fn subscribe_needs_read() {
    let mut g = Gateway::new(7, 4, OverflowPolicy::DropOldest);
    g.connect(20, Some(ALICE)).unwrap();
    let mut ch = text_channel(10);
    ch.permissions = vec![PermissionOverride { role_id: 2, allow: 0, deny: READ }];
    let r = g.subscribe(20, &server(), &member(ALICE, vec![1, 2]), &ch);
    assert_eq!(r, Err(GatewayError::PermissionDenied));
    assert!(g.topics().is_empty());
}

#[test]
fn subscribe_unknown_connection() {
    let mut g = Gateway::new(7, 4, OverflowPolicy::DropOldest);
    let r = g.subscribe(20, &server(), &member(ALICE, vec![1]), &text_channel(10));
    assert_eq!(r, Err(GatewayError::UnknownConnection));
}

#[test]
fn subscribe_as_another_user_is_denied() {
    let mut g = Gateway::new(7, 4, OverflowPolicy::DropOldest);
    g.connect(20, Some(ALICE)).unwrap();
    let r = g.subscribe(20, &server(), &member(BOB, vec![1]), &text_channel(10));
    assert_eq!(r, Err(GatewayError::PermissionDenied));
}

#[test]
fn publish_needs_write() {
    let mut g = gateway_with_two_subscribers();
    let r = g.publish(20, &server(), &member(ALICE, vec![1, 2]), &text_channel(10), &vec![1]);
    assert!(matches!(r, Err(GatewayError::PermissionDenied)));
    assert!(g.next_outbound(30).is_none());
}

#[test]
fn publish_fans_out_locally_once_and_echo_is_suppressed() {
    let mut g = gateway_with_two_subscribers();
    let p = g
        .publish(20, &server(), &member(ALICE, vec![1]), &text_channel(10), &b"hi".to_vec())
        .unwrap();
    let mut rec = p.recipients.clone();
    rec.sort();
    assert_eq!(rec, vec![20, 30]);
    assert_eq!(p.envelope.origin_instance, 7);
    assert_eq!(p.envelope.origin_connection, 20);
    assert_eq!(p.envelope.sender_id, ALICE);
    assert_eq!(p.envelope.channel_id, 10);
    // the bus echoes the envelope back
    assert!(g.receive_from_bus(&p.envelope).is_empty());
    assert_eq!(event_payload(g.next_outbound(20)), Some(b"hi".to_vec()));
    assert!(g.next_outbound(20).is_none());
    assert_eq!(event_payload(g.next_outbound(30)), Some(b"hi".to_vec()));
    assert!(g.next_outbound(30).is_none());
}

#[test]
fn envelope_from_another_instance_is_delivered() {
    let mut g = gateway_with_two_subscribers();
    let e = Envelope {
        channel_id: 10,
        sender_id: BOB,
        payload: vec![5, 6],
        sequence_hint: 0,
        origin_instance: 8,
        origin_connection: 99,
    };
    let mut rec = g.receive_from_bus(&e);
    rec.sort();
    assert_eq!(rec, vec![20, 30]);
    assert_eq!(event_payload(g.next_outbound(20)), Some(vec![5, 6]));
    let other = Envelope { channel_id: 11, ..e };
    assert!(g.receive_from_bus(&other).is_empty());
}

#[test]
fn owner_publishes_to_channel_without_subscribers() {
    let mut g = Gateway::new(7, 4, OverflowPolicy::DropOldest);
    g.connect(10, Some(OWNER)).unwrap();
    g.connect(20, Some(ALICE)).unwrap();
    let srv = server();
    let ch = text_channel(11);
    let p = g.publish(10, &srv, &member(OWNER, vec![]), &ch, &b"first".to_vec()).unwrap();
    assert!(p.recipients.is_empty());
    assert_eq!(p.envelope.payload, b"first".to_vec());
    g.subscribe(20, &srv, &member(ALICE, vec![1]), &ch).unwrap();
    assert!(g.next_outbound(20).is_none());
    assert!(g.next_outbound(10).is_none());
}

#[test]
fn local_fan_out_continues_while_bus_is_down() {
    let mut g = gateway_with_two_subscribers();
    let (bus, action) = next_bus_step(BusState::Connected, BusEvent::Lost);
    assert!(is_degraded(bus));
    assert_eq!(action, BusAction::RetryAfter { delay_ms: 100 });
    let p = g
        .publish(20, &server(), &member(ALICE, vec![1]), &text_channel(10), &b"a".to_vec())
        .unwrap();
    assert_eq!(p.recipients.len(), 2);
    let p = g
        .publish(30, &server(), &member(BOB, vec![1]), &text_channel(10), &b"b".to_vec())
        .unwrap();
    assert_eq!(p.recipients.len(), 2);
    assert_eq!(event_payload(g.next_outbound(20)), Some(b"a".to_vec()));
    assert_eq!(event_payload(g.next_outbound(20)), Some(b"b".to_vec()));
    assert_eq!(event_payload(g.next_outbound(30)), Some(b"a".to_vec()));
    assert_eq!(event_payload(g.next_outbound(30)), Some(b"b".to_vec()));
    let (bus, action) = next_bus_step(bus, BusEvent::Up);
    assert!(!is_degraded(bus));
    assert_eq!(action, BusAction::Resubscribe);
    assert_eq!(g.topics(), vec![10]);
}

#[test]
fn disconnect_twice_is_a_no_op() {
    let mut g = gateway_with_two_subscribers();
    assert!(g.disconnect(20));
    assert!(!g.disconnect(20));
    assert!(!g.disconnect(555));
    assert_eq!(g.session_state(20), None);
    assert!(g.lookup(ALICE).is_empty());
    let e = Envelope {
        channel_id: 10,
        sender_id: BOB,
        payload: vec![1],
        sequence_hint: 0,
        origin_instance: 8,
        origin_connection: 99,
    };
    assert_eq!(g.receive_from_bus(&e), vec![30]);
}

#[test]
fn last_unsubscribe_removes_topic() {
    let mut g = gateway_with_two_subscribers();
    assert_eq!(g.topics(), vec![10]);
    assert!(g.unsubscribe(20, 10));
    assert!(!g.unsubscribe(20, 10));
    assert_eq!(g.topics(), vec![10]);
    assert!(g.unsubscribe(30, 10));
    assert!(g.topics().is_empty());
}

#[test]
fn draining_session_refuses_new_frames() {
    let mut g = gateway_with_two_subscribers();
    assert_eq!(g.session_event(30, SessionEvent::Drain), Some(false));
    assert_eq!(g.session_state(30), Some(SessionState::Draining));
    g.publish(20, &server(), &member(ALICE, vec![1]), &text_channel(10), &vec![1]).unwrap();
    assert!(g.next_outbound(30).is_none());
    assert_eq!(g.session_event(30, SessionEvent::Close), Some(true));
    assert_eq!(g.session_event(99, SessionEvent::Close), None);
}

#[test]
fn registry_unregister_is_idempotent() {
    let mut r = ConnectionRegistry::new();
    assert_eq!(r.register(1, 2, 4, OverflowPolicy::DropOldest), Ok(()));
    assert_eq!(r.register(1, 2, 4, OverflowPolicy::DropOldest), Err(RegistryError::DuplicateConnection));
    assert!(r.contains(1));
    assert!(r.unregister(1));
    assert!(!r.unregister(1));
    assert!(!r.contains(1));
    assert!(r.deliver(1, OutboundFrame::Ack).is_none());
}

#[test]
fn router_tracks_pairs() {
    let mut r = TopicRouter::new();
    assert!(r.subscribe(10, 1));
    assert!(!r.subscribe(10, 1));
    assert!(r.subscribe(10, 2));
    assert!(r.subscribe(11, 1));
    let mut subs = r.subscribers(10);
    subs.sort();
    assert_eq!(subs, vec![1, 2]);
    r.remove_connection(1);
    assert_eq!(r.subscribers(10), vec![2]);
    assert!(r.subscribers(11).is_empty());
    assert!(!r.is_subscribed(11, 1));
    assert_eq!(r.topics(), vec![10]);
}

#[test]
fn backoff_doubles_up_to_the_cap() {
    assert_eq!(backoff_ms(0), 100);
    assert_eq!(backoff_ms(1), 200);
    assert_eq!(backoff_ms(3), 800);
    assert_eq!(backoff_ms(9), 30000);
    assert_eq!(backoff_ms(1000), 30000);
    let (s, a) = next_bus_step(BusState::Reconnecting { attempt: 2 }, BusEvent::AttemptFailed);
    assert_eq!(s, BusState::Reconnecting { attempt: 3 });
    assert_eq!(a, BusAction::RetryAfter { delay_ms: 800 });
    let (s, a) = next_bus_step(BusState::Reconnecting { attempt: u32::MAX }, BusEvent::AttemptFailed);
    assert_eq!(s, BusState::Reconnecting { attempt: u32::MAX });
    assert_eq!(a, BusAction::RetryAfter { delay_ms: 30000 });
    let (s, a) = next_bus_step(BusState::Reconnecting { attempt: 2 }, BusEvent::Lost);
    assert_eq!(s, BusState::Reconnecting { attempt: 2 });
    assert_eq!(a, BusAction::Nothing);
}

#[test]
fn replies_reach_only_their_connection() {
    let mut g = gateway_with_two_subscribers();
    assert_eq!(g.user_of(20), Some(ALICE));
    assert_eq!(g.user_of(99), None);
    assert_eq!(g.deliver(20, OutboundFrame::Ack), Some(EnqueueOutcome::Queued));
    assert_eq!(g.deliver(99, OutboundFrame::Ack), None);
    assert!(matches!(g.next_outbound(20), Some(OutboundFrame::Ack)));
    assert!(g.next_outbound(30).is_none());
}

#[test]
fn revalidation_drops_lost_read_access() {
    let mut g = gateway_with_two_subscribers();
    let srv = server();
    let mut ch = text_channel(10);
    assert!(g.revalidate(20, &srv, &member(ALICE, vec![1]), &ch));
    ch.permissions.push(PermissionOverride { role_id: 2, allow: 0, deny: READ });
    assert!(!g.revalidate(20, &srv, &member(ALICE, vec![1, 2]), &ch));
    assert!(!g.revalidate(20, &srv, &member(ALICE, vec![1]), &ch));
    let e = Envelope {
        channel_id: 10,
        sender_id: BOB,
        payload: vec![1],
        sequence_hint: 0,
        origin_instance: 8,
        origin_connection: 99,
    };
    assert_eq!(g.receive_from_bus(&e), vec![30]);
}

#[test]
fn drain_all_stops_new_frames() {
    let mut g = gateway_with_two_subscribers();
    g.deliver(20, OutboundFrame::Ack);
    g.drain_all();
    assert_eq!(g.session_state(20), Some(SessionState::Draining));
    assert_eq!(g.session_state(30), Some(SessionState::Draining));
    assert_eq!(g.deliver(30, OutboundFrame::Ack), Some(EnqueueOutcome::Rejected));
    assert!(matches!(g.next_outbound(20), Some(OutboundFrame::Ack)));
}

#[test]
fn session_event_closes_and_releases_once() {
    let mut g = gateway_with_two_subscribers();
    g.deliver(20, OutboundFrame::Ack);
    assert_eq!(g.session_event(20, SessionEvent::Close), Some(true));
    assert_eq!(g.session_state(20), Some(SessionState::Closed));
    assert!(g.next_outbound(20).is_none());
    assert_eq!(g.session_event(20, SessionEvent::Close), Some(false));
    assert_eq!(g.session_event(20, SessionEvent::AuthSucceeded), Some(false));
    assert_eq!(g.session_state(20), Some(SessionState::Closed));
}

#[test]
fn sessions_share_the_gateway_overflow_policy() {
    let mut g = Gateway::new(7, 2, OverflowPolicy::Disconnect);
    g.connect(20, Some(ALICE)).unwrap();
    assert_eq!(g.deliver(20, OutboundFrame::Ack), Some(EnqueueOutcome::Queued));
    assert_eq!(g.deliver(20, OutboundFrame::Ack), Some(EnqueueOutcome::Queued));
    assert_eq!(g.deliver(20, OutboundFrame::Ack), Some(EnqueueOutcome::Overflowed));
    assert_eq!(g.session_state(20), Some(SessionState::Draining));
}

#[test]
fn subscribe_with_override_that_allows_and_denies_read() {
    let mut g = Gateway::new(7, 4, OverflowPolicy::DropOldest);
    g.connect(20, Some(ALICE)).unwrap();
    let mut srv = server();
    srv.roles[0].permissions = 0;
    let mut ch = text_channel(10);
    ch.permissions = vec![PermissionOverride { role_id: 1, allow: READ | WRITE, deny: READ | WRITE }];
    let m = member(ALICE, vec![1]);
    assert_eq!(g.subscribe(20, &srv, &m, &ch), Ok(()));
    let p = g.publish(20, &srv, &m, &ch, &vec![9]).unwrap();
    assert_eq!(p.recipients, vec![20]);
}
