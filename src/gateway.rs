//! The gateway core of one process: live sessions, their subscriptions,
//! permission checks on every subscribe and publish, local fan-out, and the
//! envelopes exchanged with the bus.
//!
//! Publishing delivers to every local subscriber at once and hands an
//! envelope, tagged with this gateway's instance id, to the caller for the
//! bus. When the bus echoes an envelope back, the tag identifies it as ours
//! and it is not delivered again: every local subscriber has it already.

use vstd::prelude::*;
use crate::models::{Channel, Member, Server};
use crate::permission::{Capability, permits, resolve};
use crate::queue::{OutboundFrame, OverflowPolicy};
use crate::registry::{ConnectionRegistry, RegistryError};
use crate::router::{TopicRouter, subscribers_in, topics_in, without_connection};
use crate::session::{
    EnqueueOutcome, Session, SessionEvent, SessionState, closes, enqueue_result,
};

verus! {

/// A message as it travels over the bus.
#[derive(Clone, Debug)]
pub struct Envelope {
    pub channel_id: u64,
    pub sender_id: u64,
    pub payload: Vec<u8>,
    pub sequence_hint: u64,
    /// The gateway instance that published it.
    pub origin_instance: u64,
    /// The connection that published it.
    pub origin_connection: u64,
}

#[derive(Clone, Copy, Debug, PartialEq, Eq, Structural)]
pub enum GatewayError {
    /// The authenticator did not confirm the connection.
    AuthFailure,
    DuplicateConnection,
    UnknownConnection,
    PermissionDenied,
}

/// A successful publish: the envelope for the bus and the local recipients.
pub struct Published {
    pub envelope: Envelope,
    pub recipients: Vec<u64>,
}

/// `f` is an event frame of channel `ch` from `sender` carrying `payload`.
pub open spec fn is_event(f: OutboundFrame, ch: u64, sender: u64, payload: Seq<u8>) -> bool {
    f matches OutboundFrame::Event { channel_id, sender_id, payload: p } && channel_id == ch
        && sender_id == sender && p@ == payload
}

/// Session `t` is session `s` after an event frame of `ch` from `sender`
/// carrying `payload` was handed to it.
pub open spec fn delivered(s: Session, t: Session, ch: u64, sender: u64, payload: Seq<u8>) -> bool {
    &&& exists|f: OutboundFrame|
        is_event(f, ch, sender, payload) && #[trigger] enqueue_result(
            s.state_spec(),
            s.queued(),
            s.cap(),
            s.policy_spec(),
            f,
        ).1 == t.queued() && enqueue_result(s.state_spec(), s.queued(), s.cap(), s.policy_spec(), f).0
            == t.state_spec()
    &&& t.connection() == s.connection()
    &&& t.user() == s.user()
    &&& t.cap() == s.cap()
    &&& t.policy_spec() == s.policy_spec()
}

/// `after` is `before` with the event handed to each session of `to`, and
/// every other session unchanged.
pub open spec fn fanned_out(
    before: Map<u64, Session>,
    after: Map<u64, Session>,
    to: Set<u64>,
    ch: u64,
    sender: u64,
    payload: Seq<u8>,
) -> bool {
    &&& after.dom() == before.dom()
    &&& forall|c: u64| #[trigger]
        before.contains_key(c) ==> if to.contains(c) {
            delivered(before[c], after[c], ch, sender, payload)
        } else {
            after[c] == before[c]
        }
}

/// `after` is `before` once connection `conn` was disconnected; `removed`
/// says whether it was live.
pub open spec fn disconnected(before: Gateway, after: Gateway, conn: u64, removed: bool) -> bool {
    &&& after.instance() == before.instance()
    &&& removed == before.sessions().contains_key(conn)
    &&& after.sessions() == before.sessions().remove(conn)
    &&& after.subscriptions() == without_connection(before.subscriptions(), conn)
}

/// Disconnecting twice: the first call releases the session and its
/// subscriptions; the second finds nothing and changes nothing.
pub proof fn lemma_disconnect_idempotent(
    g0: Gateway,
    g1: Gateway,
    g2: Gateway,
    conn: u64,
    first: bool,
    second: bool,
)
    requires
        g1.wf(),
        disconnected(g0, g1, conn, first),
        disconnected(g1, g2, conn, second),
    ensures
        !second,
        g2.sessions() == g1.sessions(),
        g2.subscriptions() == g1.subscriptions(),
        !g2.sessions().contains_key(conn),
        forall|ch: u64| !g2.subscriptions().contains((ch, conn)),
{
    g1.lemma_subscribers_live();
    assert(g2.sessions() =~= g1.sessions());
    assert(g2.subscriptions() =~= g1.subscriptions());
}

/// Disconnecting a connection that is not live changes nothing.
pub proof fn lemma_disconnect_unknown(g0: Gateway, g1: Gateway, conn: u64, removed: bool)
    requires
        g0.wf(),
        !g0.sessions().contains_key(conn),
        disconnected(g0, g1, conn, removed),
    ensures
        !removed,
        g1.sessions() == g0.sessions(),
        g1.subscriptions() == g0.subscriptions(),
{
    g0.lemma_subscribers_live();
    assert(g1.sessions() =~= g0.sessions());
    assert(g1.subscriptions() =~= g0.subscriptions());
}

/// An envelope published by a gateway is never delivered by that gateway a
/// second time when the bus echoes it back, in whatever state the gateway
/// then is: its local subscribers receive it once, through local fan-out.
pub proof fn lemma_own_envelope_not_echoed(g: Gateway, e: Envelope, c: u64)
    requires
        e.origin_instance == g.instance(),
    ensures
        !g.bus_recipients(e).contains(c),
{
}

/// Copies `v` byte by byte.
fn copy_bytes(v: &Vec<u8>) -> (r: Vec<u8>)
    ensures
        r@ == v@,
{
    let mut out: Vec<u8> = Vec::new();
    let mut i: usize = 0;
    while i < v.len()
        invariant
            i <= v@.len(),
            out@ == v@.subrange(0, i as int),
        decreases v@.len() - i,
    {
        out.push(v[i]);
        assert(out@ =~= v@.subrange(0, i as int + 1));
        i = i + 1;
    }
    assert(out@ =~= v@);
    out
}

pub struct Gateway {
    instance_id: u64,
    capacity: usize,
    policy: OverflowPolicy,
    next_sequence: u64,
    registry: ConnectionRegistry,
    router: TopicRouter,
}

impl Gateway {
    pub closed spec fn instance(&self) -> u64 {
        self.instance_id
    }

    /// The live sessions, by connection id.
    pub closed spec fn sessions(&self) -> Map<u64, Session> {
        self.registry@
    }

    /// The subscriptions, as pairs of channel id and connection id.
    pub closed spec fn subscriptions(&self) -> Set<(u64, u64)> {
        self.router@
    }

    pub closed spec fn queue_capacity(&self) -> nat {
        self.capacity as nat
    }

    pub closed spec fn overflow_policy(&self) -> OverflowPolicy {
        self.policy
    }

    /// The registry and router are sound and every subscription belongs to a
    /// live session.
    pub closed spec fn wf(&self) -> bool {
        &&& self.registry.wf()
        &&& self.router.wf()
        &&& self.capacity > 0
        &&& forall|p: (u64, u64)| #[trigger] self.router@.contains(p) ==> self.registry@.contains_key(p.1)
    }

    /// The connections that an envelope arriving from the bus is delivered
    /// to: none when this gateway published it, else the local subscribers
    /// of its channel.
    pub open spec fn bus_recipients(&self, e: Envelope) -> Set<u64> {
        if e.origin_instance == self.instance() {
            Set::empty()
        } else {
            subscribers_in(self.subscriptions(), e.channel_id)
        }
    }

    /// Every session is well formed and filed under its own connection id.
    pub proof fn lemma_sessions_wf(&self)
        requires
            self.wf(),
        ensures
            forall|c: u64| #[trigger] self.sessions().contains_key(c) ==> self.sessions()[c].wf()
                && self.sessions()[c].connection() == c,
    {
        self.registry.lemma_sessions_by_own_id();
    }

    /// Every subscription belongs to a live session.
    pub proof fn lemma_subscribers_live(&self)
        requires
            self.wf(),
        ensures
            forall|p: (u64, u64)| #[trigger] self.subscriptions().contains(p) ==> self.sessions().contains_key(p.1),
    {
    }

    /// A gateway with no sessions, whose sessions queue at most `capacity`
    /// frames and overflow by `policy`.
    pub fn new(instance_id: u64, capacity: usize, policy: OverflowPolicy) -> (r: Gateway)
        requires
            capacity > 0,
        ensures
            r.wf(),
            r.instance() == instance_id,
            r.sessions() == Map::<u64, Session>::empty(),
            r.subscriptions() == Set::<(u64, u64)>::empty(),
            r.queue_capacity() == capacity,
            r.overflow_policy() == policy,
    {
        Gateway {
            instance_id,
            capacity,
            policy,
            next_sequence: 0,
            registry: ConnectionRegistry::new(),
            router: TopicRouter::new(),
        }
    }

    pub fn instance_id(&self) -> (r: u64)
        ensures
            r == self.instance(),
    {
        self.instance_id
    }

    /// Admits connection `conn` once the authenticator has answered:
    /// `authenticated` is the confirmed user id, or `None` when
    /// authentication failed, in which case no session is created.
    pub fn connect(&mut self, conn: u64, authenticated: Option<u64>) -> (r: Result<(), GatewayError>)
        requires
            old(self).wf(),
        ensures
            final(self).wf(),
            final(self).instance() == old(self).instance(),
            final(self).subscriptions() == old(self).subscriptions(),
            authenticated is None ==> r == Err::<(), GatewayError>(GatewayError::AuthFailure)
                && final(self).sessions() == old(self).sessions(),
            authenticated is Some && old(self).sessions().contains_key(conn) ==> r == Err::<
                (),
                GatewayError,
            >(GatewayError::DuplicateConnection) && final(self).sessions() == old(self).sessions(),
            authenticated is Some && !old(self).sessions().contains_key(conn) ==> {
                &&& r is Ok
                &&& final(self).sessions().dom() == old(self).sessions().dom().insert(conn)
                &&& forall|c: u64| c != conn && #[trigger] old(self).sessions().contains_key(c)
                    ==> final(self).sessions()[c] == old(self).sessions()[c]
                &&& final(self).sessions()[conn].user() == authenticated->0
                &&& final(self).sessions()[conn].state_spec() == SessionState::Active
                &&& final(self).sessions()[conn].queued().len() == 0
                &&& final(self).sessions()[conn].connection() == conn
                &&& final(self).sessions()[conn].cap() == old(self).queue_capacity()
                &&& final(self).sessions()[conn].policy_spec() == old(self).overflow_policy()
            },
            final(self).queue_capacity() == old(self).queue_capacity(),
            final(self).overflow_policy() == old(self).overflow_policy(),
    {
        match authenticated {
            None => Err(GatewayError::AuthFailure),
            Some(user) => match self.registry.register(conn, user, self.capacity, self.policy) {
                Ok(()) => Ok(()),
                Err(RegistryError::DuplicateConnection) => Err(GatewayError::DuplicateConnection),
            },
        }
    }

    /// Tears down connection `conn`: its subscriptions leave the router
    /// first, then its session is closed and released. Returns whether there
    /// was such a connection; for an unknown one nothing changes.
    pub fn disconnect(&mut self, conn: u64) -> (removed: bool)
        requires
            old(self).wf(),
        ensures
            final(self).wf(),
            final(self).instance() == old(self).instance(),
            disconnected(*old(self), *final(self), conn, removed),
    {
        self.router.remove_connection(conn);
        self.registry.unregister(conn)
    }

    /// Checks that `conn` is live, belongs to `member`, and may use `cap` on
    /// `channel`.
    fn check_access(
        &self,
        conn: u64,
        server: &Server,
        member: &Member,
        channel: &Channel,
        cap: Capability,
    ) -> (r: Result<(), GatewayError>)
        requires
            self.wf(),
        ensures
            !self.sessions().contains_key(conn) ==> r == Err::<(), GatewayError>(
                GatewayError::UnknownConnection,
            ),
            self.sessions().contains_key(conn) ==> (r is Ok <==> (self.sessions()[conn].user()
                == member.user_id && permits(*server, *member, *channel, cap))),
            self.sessions().contains_key(conn) && r is Err ==> r == Err::<(), GatewayError>(
                GatewayError::PermissionDenied,
            ),
    {
        match self.registry.state_of(conn) {
            None => Err(GatewayError::UnknownConnection),
            Some(_) => {
                if !self.registry.user_is(conn, member.user_id) {
                    return Err(GatewayError::PermissionDenied);
                }
                if resolve(server, member, channel, cap).allowed {
                    Ok(())
                } else {
                    Err(GatewayError::PermissionDenied)
                }
            },
        }
    }

    /// Subscribes `conn`, whose user is `member` of `server`, to `channel`,
    /// provided the member may read it.
    pub fn subscribe(&mut self, conn: u64, server: &Server, member: &Member, channel: &Channel) -> (r:
        Result<(), GatewayError>)
        requires
            old(self).wf(),
        ensures
            final(self).wf(),
            final(self).instance() == old(self).instance(),
            final(self).sessions() == old(self).sessions(),
            !old(self).sessions().contains_key(conn) ==> r == Err::<(), GatewayError>(
                GatewayError::UnknownConnection,
            ),
            old(self).sessions().contains_key(conn) ==> (r is Ok <==> (old(self).sessions()[conn].user()
                == member.user_id && permits(*server, *member, *channel, Capability::Read))),
            old(self).sessions().contains_key(conn) && r is Err ==> r == Err::<(), GatewayError>(
                GatewayError::PermissionDenied,
            ),
            r is Ok ==> final(self).subscriptions() == old(self).subscriptions().insert(
                (channel.id, conn),
            ),
            r is Err ==> final(self).subscriptions() == old(self).subscriptions(),
    {
        let ok = self.check_access(conn, server, member, channel, Capability::Read);
        match ok {
            Ok(()) => {
                self.router.subscribe(channel.id, conn);
                Ok(())
            },
            Err(e) => Err(e),
        }
    }

    /// Removes the subscription of `conn` to channel `ch`. Returns whether
    /// there was one.
    pub fn unsubscribe(&mut self, conn: u64, ch: u64) -> (removed: bool)
        requires
            old(self).wf(),
        ensures
            final(self).wf(),
            final(self).instance() == old(self).instance(),
            final(self).sessions() == old(self).sessions(),
            removed == old(self).subscriptions().contains((ch, conn)),
            final(self).subscriptions() == old(self).subscriptions().remove((ch, conn)),
    {
        self.router.unsubscribe(ch, conn)
    }

    /// Checks the subscription of `conn` to `channel` again after the
    /// member's roles or the channel's overrides changed, and removes it when
    /// the member may no longer read the channel. Returns whether the
    /// subscription stands.
    pub fn revalidate(&mut self, conn: u64, server: &Server, member: &Member, channel: &Channel) -> (kept:
        bool)
        requires
            old(self).wf(),
        ensures
            final(self).wf(),
            final(self).instance() == old(self).instance(),
            final(self).sessions() == old(self).sessions(),
            kept == (old(self).subscriptions().contains((channel.id, conn)) && old(self).sessions()[conn].user()
                == member.user_id && permits(*server, *member, *channel, Capability::Read)),
            kept ==> final(self).subscriptions() == old(self).subscriptions(),
            !kept ==> final(self).subscriptions() == old(self).subscriptions().remove(
                (channel.id, conn),
            ),
    {
        if !self.router.is_subscribed(channel.id, conn) {
            assert(self.router@ =~= old(self).router@.remove((channel.id, conn)));
            return false;
        }
        match self.check_access(conn, server, member, channel, Capability::Read) {
            Ok(()) => true,
            Err(_) => {
                self.router.unsubscribe(channel.id, conn);
                false
            },
        }
    }

    /// Moves every session to draining, as a shutdown of the whole gateway
    /// begins: no new frames are queued, queued ones can still be written.
    pub fn drain_all(&mut self)
        requires
            old(self).wf(),
        ensures
            final(self).wf(),
            final(self).instance() == old(self).instance(),
            final(self).subscriptions() == old(self).subscriptions(),
            final(self).sessions().dom() == old(self).sessions().dom(),
            forall|c: u64| #[trigger] old(self).sessions().contains_key(c) ==> old(
                self,
            ).sessions()[c].applied(final(self).sessions()[c], SessionEvent::Drain),
    {
        self.registry.apply_all(SessionEvent::Drain);
    }

    /// Hands an event of channel `ch` from `sender` to every local
    /// subscriber of `ch`. Returns the recipients.
    fn fan_out(&mut self, ch: u64, sender: u64, payload: &Vec<u8>) -> (r: Vec<u64>)
        requires
            old(self).wf(),
        ensures
            final(self).wf(),
            final(self).instance() == old(self).instance(),
            final(self).subscriptions() == old(self).subscriptions(),
            r@.no_duplicates(),
            forall|c: u64| r@.contains(c) <==> subscribers_in(old(self).subscriptions(), ch).contains(c),
            fanned_out(
                old(self).sessions(),
                final(self).sessions(),
                subscribers_in(old(self).subscriptions(), ch),
                ch,
                sender,
                payload@,
            ),
    {
        let to = self.router.subscribers(ch);
        let ghost before = self.registry@;
        let mut k: usize = 0;
        while k < to.len()
            invariant
                k <= to@.len(),
                to@.no_duplicates(),
                forall|c: u64| to@.contains(c) <==> subscribers_in(self.router@, ch).contains(c),
                self.registry.wf(),
                self.router.wf(),
                self.router@ == old(self).router@,
                self.capacity > 0,
                self.instance_id == old(self).instance_id,
                before == old(self).registry@,
                forall|p: (u64, u64)| #[trigger] self.router@.contains(p) ==> before.contains_key(p.1),
                fanned_out(before, self.registry@, to@.subrange(0, k as int).to_set(), ch, sender, payload@),
            decreases to@.len() - k,
        {
            let c = to[k];
            assert(to@.contains(c));
            assert(self.router@.contains((ch, c)));
            let ghost mid = self.registry@;
            proof {
                self.registry.lemma_sessions_by_own_id();
            }
            let f = OutboundFrame::Event { channel_id: ch, sender_id: sender, payload: copy_bytes(payload) };
            self.registry.deliver(c, f);
            proof {
                let done = to@.subrange(0, k as int).to_set();
                let next = to@.subrange(0, k as int + 1).to_set();
                assert(!done.contains(c)) by {
                    let sd = to@.subrange(0, k as int);
                    if done.contains(c) {
                        let j = choose|j: int| 0 <= j < sd.len() && sd[j] == c;
                        assert(to@[j] == to@[k as int]);
                    }
                }
                assert forall|d: u64| next.contains(d) == (done.contains(d) || d == c) by {
                    let sn = to@.subrange(0, k as int + 1);
                    let sd = to@.subrange(0, k as int);
                    if next.contains(d) {
                        let j = choose|j: int| 0 <= j < sn.len() && sn[j] == d;
                        if j < k {
                            assert(sd[j] == d);
                        }
                    }
                    if done.contains(d) {
                        let j = choose|j: int| 0 <= j < sd.len() && sd[j] == d;
                        assert(sn[j] == d);
                    }
                    if d == c {
                        assert(to@.subrange(0, k as int + 1)[k as int] == d);
                    }
                }
                assert(before.contains_key(c));
                assert(mid[c] == before[c]);
                assert(is_event(f, ch, sender, payload@));
                assert forall|d: u64| #[trigger] before.contains_key(d) implies if next.contains(d) {
                    delivered(before[d], self.registry@[d], ch, sender, payload@)
                } else {
                    self.registry@[d] == before[d]
                } by {
                    if d == c {
                        let s = before[c];
                        let t = self.registry@[c];
                        assert(mid[c] == s);
                        assert(enqueue_result(s.state_spec(), s.queued(), s.cap(), s.policy_spec(), f).1
                            == t.queued());
                        assert(enqueue_result(s.state_spec(), s.queued(), s.cap(), s.policy_spec(), f).0
                            == t.state_spec());
                        assert(delivered(s, t, ch, sender, payload@));
                    } else {
                        assert(mid.contains_key(d));
                        assert(self.registry@[d] == mid[d]);
                        if next.contains(d) {
                            assert(done.contains(d));
                        }
                    }
                }
                assert(self.registry@.dom() =~= before.dom());
            }
            k = k + 1;
        }
        proof {
            assert(to@.subrange(0, to@.len() as int) == to@);
            assert forall|d: u64| to@.to_set().contains(d) == subscribers_in(old(self).router@, ch).contains(d) by {
                if to@.contains(d) {
                    let j = choose|j: int| 0 <= j < to@.len() && to@[j] == d;
                }
            }
            assert(to@.to_set() =~= subscribers_in(old(self).router@, ch));
        }
        to
    }

    /// Publishes `payload` from connection `conn`, whose user is `member` of
    /// `server`, to `channel`, provided the member may write there. On
    /// success every local subscriber of the channel receives the event once,
    /// and the result holds the envelope to hand to the bus.
    pub fn publish(
        &mut self,
        conn: u64,
        server: &Server,
        member: &Member,
        channel: &Channel,
        payload: &Vec<u8>,
    ) -> (r: Result<Published, GatewayError>)
        requires
            old(self).wf(),
        ensures
            final(self).wf(),
            final(self).instance() == old(self).instance(),
            final(self).subscriptions() == old(self).subscriptions(),
            !old(self).sessions().contains_key(conn) ==> r == Err::<Published, GatewayError>(
                GatewayError::UnknownConnection,
            ),
            old(self).sessions().contains_key(conn) ==> (r is Ok <==> (old(self).sessions()[conn].user()
                == member.user_id && permits(*server, *member, *channel, Capability::Write))),
            r matches Err(e) ==> final(self).sessions() == old(self).sessions() && (old(
                self,
            ).sessions().contains_key(conn) ==> e == GatewayError::PermissionDenied),
            r matches Ok(p) ==> {
                &&& p.envelope.channel_id == channel.id
                &&& p.envelope.sender_id == member.user_id
                &&& p.envelope.payload@ == payload@
                &&& p.envelope.origin_instance == old(self).instance()
                &&& p.envelope.origin_connection == conn
                &&& p.recipients@.no_duplicates()
                &&& forall|c: u64| p.recipients@.contains(c) <==> subscribers_in(old(self).subscriptions(), channel.id).contains(c)
                &&& fanned_out(
                    old(self).sessions(),
                    final(self).sessions(),
                    subscribers_in(old(self).subscriptions(), channel.id),
                    channel.id,
                    member.user_id,
                    payload@,
                )
            },
    {
        match self.check_access(conn, server, member, channel, Capability::Write) {
            Err(e) => Err(e),
            Ok(()) => {
                let recipients = self.fan_out(channel.id, member.user_id, payload);
                let seq = self.next_sequence;
                self.next_sequence = if seq == u64::MAX {
                    0
                } else {
                    seq + 1
                };
                let envelope = Envelope {
                    channel_id: channel.id,
                    sender_id: member.user_id,
                    payload: copy_bytes(payload),
                    sequence_hint: seq,
                    origin_instance: self.instance_id,
                    origin_connection: conn,
                };
                Ok(Published { envelope, recipients })
            },
        }
    }

    /// Delivers an envelope that arrived from the bus. An envelope that this
    /// gateway published is the bus echoing it back and goes to nobody;
    /// another goes to every local subscriber of its channel. Returns the
    /// recipients.
    pub fn receive_from_bus(&mut self, e: &Envelope) -> (r: Vec<u64>)
        requires
            old(self).wf(),
        ensures
            final(self).wf(),
            final(self).instance() == old(self).instance(),
            final(self).subscriptions() == old(self).subscriptions(),
            r@.no_duplicates(),
            forall|c: u64| r@.contains(c) <==> old(self).bus_recipients(*e).contains(c),
            fanned_out(
                old(self).sessions(),
                final(self).sessions(),
                old(self).bus_recipients(*e),
                e.channel_id,
                e.sender_id,
                e.payload@,
            ),
    {
        if e.origin_instance == self.instance_id {
            let ghost s = self.sessions();
            assert forall|c: u64| #[trigger] s.contains_key(c) implies !Set::<u64>::empty().contains(c) by {}
            Vec::new()
        } else {
            self.fan_out(e.channel_id, e.sender_id, &e.payload)
        }
    }

    /// The channels with local subscribers, each once: the topics to
    /// subscribe to on the bus.
    pub fn topics(&self) -> (r: Vec<u64>)
        requires
            self.wf(),
        ensures
            r@.no_duplicates(),
            forall|ch: u64| r@.contains(ch) <==> topics_in(self.subscriptions()).contains(ch),
    {
        self.router.topics()
    }

    /// The connections of user `user`, each once.
    pub fn lookup(&self, user: u64) -> (r: Vec<u64>)
        requires
            self.wf(),
        ensures
            r@.no_duplicates(),
            forall|c: u64|
                #[trigger] r@.contains(c) <==> (self.sessions().contains_key(c) && self.sessions()[c].user() == user),
    {
        self.registry.lookup(user)
    }

    /// The user of the session of `conn`.
    pub fn user_of(&self, conn: u64) -> (r: Option<u64>)
        requires
            self.wf(),
        ensures
            !self.sessions().contains_key(conn) ==> r is None,
            self.sessions().contains_key(conn) ==> r == Some(self.sessions()[conn].user()),
    {
        self.registry.user_of(conn)
    }

    /// Hands `f` to the session of `conn` alone, as a reply to its client;
    /// `None` when there is no such session.
    pub fn deliver(&mut self, conn: u64, f: OutboundFrame) -> (r: Option<EnqueueOutcome>)
        requires
            old(self).wf(),
        ensures
            final(self).wf(),
            final(self).instance() == old(self).instance(),
            final(self).subscriptions() == old(self).subscriptions(),
            !old(self).sessions().contains_key(conn) ==> r is None && final(self).sessions()
                == old(self).sessions(),
            old(self).sessions().contains_key(conn) ==> {
                let s = old(self).sessions()[conn];
                let t = final(self).sessions()[conn];
                &&& r is Some
                &&& (t.state_spec(), t.queued(), r->0) == enqueue_result(
                    s.state_spec(),
                    s.queued(),
                    s.cap(),
                    s.policy_spec(),
                    f,
                )
                &&& final(self).sessions() == old(self).sessions().insert(conn, t)
            },
    {
        let r = self.registry.deliver(conn, f);
        proof {
            if old(self).registry@.contains_key(conn) {
                assert(self.registry@.dom() =~= old(self).registry@.dom());
            }
        }
        r
    }

    /// The lifecycle state of the session of `conn`.
    pub fn session_state(&self, conn: u64) -> (r: Option<SessionState>)
        requires
            self.wf(),
        ensures
            !self.sessions().contains_key(conn) ==> r is None,
            self.sessions().contains_key(conn) ==> r == Some(self.sessions()[conn].state_spec()),
    {
        self.registry.state_of(conn)
    }

    /// Applies lifecycle event `ev` to the session of `conn`; see
    /// `ConnectionRegistry::apply`.
    pub fn session_event(&mut self, conn: u64, ev: SessionEvent) -> (r: Option<bool>)
        requires
            old(self).wf(),
        ensures
            final(self).wf(),
            final(self).instance() == old(self).instance(),
            final(self).subscriptions() == old(self).subscriptions(),
            !old(self).sessions().contains_key(conn) ==> r is None && final(self).sessions()
                == old(self).sessions(),
            old(self).sessions().contains_key(conn) ==> {
                let s = old(self).sessions()[conn];
                let t = final(self).sessions()[conn];
                &&& r is Some
                &&& s.applied(t, ev)
                &&& r->0 == closes(s.state_spec(), t.state_spec())
                &&& final(self).sessions() == old(self).sessions().insert(conn, t)
            },
    {
        let r = self.registry.apply(conn, ev);
        proof {
            if old(self).registry@.contains_key(conn) {
                assert(self.registry@.dom() =~= old(self).registry@.dom());
            }
        }
        r
    }

    /// Takes the oldest frame waiting for the client of `conn`, if any.
    pub fn next_outbound(&mut self, conn: u64) -> (r: Option<OutboundFrame>)
        requires
            old(self).wf(),
        ensures
            final(self).wf(),
            final(self).instance() == old(self).instance(),
            final(self).subscriptions() == old(self).subscriptions(),
            !old(self).sessions().contains_key(conn) ==> r is None && final(self).sessions()
                == old(self).sessions(),
            old(self).sessions().contains_key(conn) ==> {
                let s = old(self).sessions()[conn];
                let t = final(self).sessions()[conn];
                &&& s.queued().len() == 0 ==> r is None && t.queued() == s.queued()
                &&& s.queued().len() > 0 ==> r == Some(s.queued()[0]) && t.queued()
                    == s.queued().drop_first()
                &&& t.state_spec() == s.state_spec()
                &&& t.connection() == conn && t.user() == s.user() && t.cap() == s.cap()
                    && t.policy_spec() == s.policy_spec()
                &&& final(self).sessions() == old(self).sessions().insert(conn, t)
            },
    {
        let r = self.registry.next_outbound(conn);
        proof {
            if old(self).registry@.contains_key(conn) {
                assert(self.registry@.dom() =~= old(self).registry@.dom());
            }
        }
        r
    }
}

} // verus!
