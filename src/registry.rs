//! The connection registry: the live sessions, one per connection id.

use vstd::prelude::*;
use crate::queue::{OutboundFrame, OverflowPolicy};
use crate::session::{EnqueueOutcome, Session, SessionEvent, SessionState, closes, enqueue_result};

verus! {

#[derive(Clone, Copy, Debug, PartialEq, Eq, Structural)]
pub enum RegistryError {
    /// A session with this connection id is already registered.
    DuplicateConnection,
}

/// No two sessions of `s` share a connection id.
pub open spec fn unique_connections(s: Seq<Session>) -> bool {
    forall|i: int, j: int|
        0 <= i < s.len() && 0 <= j < s.len() && i != j ==> #[trigger] s[i].connection()
            != #[trigger] s[j].connection()
}

/// The sessions of `s`, keyed by connection id.
pub open spec fn sessions_by_connection(s: Seq<Session>) -> Map<u64, Session> {
    Map::new(
        |c: u64| exists|i: int| 0 <= i < s.len() && s[i].connection() == c,
        |c: u64| s[choose|i: int| 0 <= i < s.len() && s[i].connection() == c],
    )
}

proof fn lemma_index(s: Seq<Session>, i: int)
    requires
        unique_connections(s),
        0 <= i < s.len(),
    ensures
        sessions_by_connection(s).contains_key(s[i].connection()),
        sessions_by_connection(s)[s[i].connection()] == s[i],
{
    let c = s[i].connection();
    let k = choose|k: int| 0 <= k < s.len() && s[k].connection() == c;
    assert(k == i);
}

proof fn lemma_update(s: Seq<Session>, i: int, x: Session)
    requires
        unique_connections(s),
        0 <= i < s.len(),
        x.connection() == s[i].connection(),
    ensures
        unique_connections(s.update(i, x)),
        sessions_by_connection(s.update(i, x)) == sessions_by_connection(s).insert(
            s[i].connection(),
            x,
        ),
{
    let t = s.update(i, x);
    let c = s[i].connection();
    assert forall|a: int, b: int|
        0 <= a < t.len() && 0 <= b < t.len() && a != b implies #[trigger] t[a].connection()
        != #[trigger] t[b].connection() by {
        assert(s[a].connection() != s[b].connection());
    }
    let m = sessions_by_connection(s).insert(c, x);
    let n = sessions_by_connection(t);
    assert forall|d: u64| #[trigger] n.contains_key(d) == m.contains_key(d) by {
        if m.contains_key(d) && d != c {
            let k = choose|k: int| 0 <= k < s.len() && s[k].connection() == d;
            assert(t[k].connection() == d);
        }
        if n.contains_key(d) {
            let k = choose|k: int| 0 <= k < t.len() && t[k].connection() == d;
            if k != i {
                assert(s[k].connection() == d);
            }
        }
        if d == c {
            assert(t[i].connection() == d);
        }
    }
    assert forall|d: u64| #[trigger] n.contains_key(d) implies n[d] == m[d] by {
        let k = choose|k: int| 0 <= k < t.len() && t[k].connection() == d;
        if k == i {
            assert(d == c);
        } else {
            assert(s[k].connection() == d);
            lemma_index(s, k);
        }
    }
    assert(n =~= m);
}

proof fn lemma_push(s: Seq<Session>, x: Session)
    requires
        unique_connections(s),
        !sessions_by_connection(s).contains_key(x.connection()),
    ensures
        unique_connections(s.push(x)),
        sessions_by_connection(s.push(x)) == sessions_by_connection(s).insert(x.connection(), x),
{
    let t = s.push(x);
    assert forall|a: int, b: int|
        0 <= a < t.len() && 0 <= b < t.len() && a != b implies #[trigger] t[a].connection()
        != #[trigger] t[b].connection() by {
        if a == s.len() {
            assert(s[b].connection() != x.connection());
        } else if b == s.len() {
            assert(s[a].connection() != x.connection());
        } else {
            assert(s[a] == t[a] && s[b] == t[b]);
        }
    }
    let m = sessions_by_connection(s).insert(x.connection(), x);
    let n = sessions_by_connection(t);
    assert forall|d: u64| #[trigger] n.contains_key(d) == m.contains_key(d) by {
        if m.contains_key(d) && d != x.connection() {
            let k = choose|k: int| 0 <= k < s.len() && s[k].connection() == d;
            assert(t[k].connection() == d);
        }
        if d == x.connection() {
            assert(t[s.len() as int].connection() == d);
        }
        if n.contains_key(d) && d != x.connection() {
            let k = choose|k: int| 0 <= k < t.len() && t[k].connection() == d;
            assert(s[k].connection() == d);
        }
    }
    assert forall|d: u64| #[trigger] n.contains_key(d) implies n[d] == m[d] by {
        let k = choose|k: int| 0 <= k < t.len() && t[k].connection() == d;
        lemma_index(t, k);
        if k < s.len() {
            lemma_index(s, k);
        }
    }
    assert(n =~= m);
}

proof fn lemma_remove(s: Seq<Session>, i: int)
    requires
        unique_connections(s),
        0 <= i < s.len(),
    ensures
        unique_connections(s.remove(i)),
        sessions_by_connection(s.remove(i)) == sessions_by_connection(s).remove(s[i].connection()),
{
    let t = s.remove(i);
    let c = s[i].connection();
    assert forall|a: int, b: int|
        0 <= a < t.len() && 0 <= b < t.len() && a != b implies #[trigger] t[a].connection()
        != #[trigger] t[b].connection() by {
        let a1 = if a < i { a } else { a + 1 };
        let b1 = if b < i { b } else { b + 1 };
        assert(t[a] == s[a1] && t[b] == s[b1]);
    }
    let m = sessions_by_connection(s).remove(c);
    let n = sessions_by_connection(t);
    assert forall|d: u64| #[trigger] n.contains_key(d) == m.contains_key(d) by {
        if m.contains_key(d) {
            let k = choose|k: int| 0 <= k < s.len() && s[k].connection() == d;
            assert(k != i);
            let k1 = if k < i { k } else { k - 1 };
            assert(t[k1] == s[k]);
        }
        if n.contains_key(d) {
            let k = choose|k: int| 0 <= k < t.len() && t[k].connection() == d;
            let k1 = if k < i { k } else { k + 1 };
            assert(t[k] == s[k1]);
            assert(k1 != i);
        }
    }
    assert forall|d: u64| #[trigger] n.contains_key(d) implies n[d] == m[d] by {
        let k = choose|k: int| 0 <= k < t.len() && t[k].connection() == d;
        lemma_index(t, k);
        let k1 = if k < i { k } else { k + 1 };
        assert(t[k] == s[k1]);
        lemma_index(s, k1);
    }
    assert(n =~= m);
}

pub struct ConnectionRegistry {
    sessions: Vec<Session>,
}

impl View for ConnectionRegistry {
    type V = Map<u64, Session>;

    closed spec fn view(&self) -> Map<u64, Session> {
        sessions_by_connection(self.sessions@)
    }
}

impl ConnectionRegistry {
    pub closed spec fn wf(&self) -> bool {
        &&& unique_connections(self.sessions@)
        &&& forall|i: int| 0 <= i < self.sessions@.len() ==> (#[trigger] self.sessions@[i]).wf()
    }

    pub fn new() -> (r: ConnectionRegistry)
        ensures
            r.wf(),
            r@ == Map::<u64, Session>::empty(),
    {
        let r = ConnectionRegistry { sessions: Vec::new() };
        assert(r@ =~= Map::<u64, Session>::empty());
        r
    }

    /// Each session is filed under its own connection id.
    pub proof fn lemma_sessions_by_own_id(&self)
        requires
            self.wf(),
        ensures
            forall|c: u64| #[trigger] self@.contains_key(c) ==> self@[c].wf() && self@[c].connection() == c,
    {
        assert forall|c: u64| #[trigger] self@.contains_key(c) implies self@[c].wf() && self@[c].connection() == c by {
            let k = choose|k: int| 0 <= k < self.sessions@.len() && self.sessions@[k].connection() == c;
            lemma_index(self.sessions@, k);
        }
    }

    fn slot(&self, conn: u64) -> (r: Option<usize>)
        requires
            self.wf(),
        ensures
            r is None ==> !self@.contains_key(conn),
            r matches Some(i) ==> i < self.sessions@.len() && self.sessions@[i as int].connection()
                == conn && self@.contains_key(conn) && self@[conn] == self.sessions@[i as int],
    {
        let mut i: usize = 0;
        while i < self.sessions.len()
            invariant
                i <= self.sessions@.len(),
                unique_connections(self.sessions@),
                forall|j: int| 0 <= j < i ==> self.sessions@[j].connection() != conn,
            decreases self.sessions@.len() - i,
        {
            if self.sessions[i].connection_id() == conn {
                proof {
                    lemma_index(self.sessions@, i as int);
                }
                return Some(i);
            }
            i = i + 1;
        }
        None
    }

    /// Whether a session is registered under `conn`.
    pub fn contains(&self, conn: u64) -> (r: bool)
        requires
            self.wf(),
        ensures
            r == self@.contains_key(conn),
    {
        self.slot(conn).is_some()
    }

    /// Registers an active session for connection `conn` of user `user`.
    /// Fails, changing nothing, when `conn` is already registered.
    pub fn register(&mut self, conn: u64, user: u64, capacity: usize, policy: OverflowPolicy) -> (r:
        Result<(), RegistryError>)
        requires
            old(self).wf(),
            capacity > 0,
        ensures
            final(self).wf(),
            old(self)@.contains_key(conn) ==> r == Err::<(), RegistryError>(
                RegistryError::DuplicateConnection,
            ) && final(self)@ == old(self)@,
            !old(self)@.contains_key(conn) ==> {
                &&& r is Ok
                &&& final(self)@.dom() == old(self)@.dom().insert(conn)
                &&& forall|c: u64| c != conn && #[trigger] old(self)@.contains_key(c) ==> final(self)@[c] == old(self)@[c]
                &&& final(self)@[conn].connection() == conn
                &&& final(self)@[conn].user() == user
                &&& final(self)@[conn].state_spec() == SessionState::Active
                &&& final(self)@[conn].queued() == Seq::<OutboundFrame>::empty()
                &&& final(self)@[conn].cap() == capacity
                &&& final(self)@[conn].policy_spec() == policy
            },
    {
        if self.slot(conn).is_some() {
            return Err(RegistryError::DuplicateConnection);
        }
        let mut s = Session::new(conn, user, capacity, policy);
        s.apply(SessionEvent::AuthSucceeded);
        proof {
            lemma_push(self.sessions@, s);
        }
        self.sessions.push(s);
        Ok(())
    }

    /// Closes and removes the session of `conn`. Returns whether there was
    /// one; for an unknown connection nothing changes.
    pub fn unregister(&mut self, conn: u64) -> (removed: bool)
        requires
            old(self).wf(),
        ensures
            final(self).wf(),
            removed == old(self)@.contains_key(conn),
            final(self)@ == old(self)@.remove(conn),
    {
        match self.slot(conn) {
            None => {
                assert(self@ =~= old(self)@.remove(conn));
                false
            },
            Some(i) => {
                proof {
                    lemma_remove(self.sessions@, i as int);
                }
                let mut s = self.sessions.remove(i);
                s.apply(SessionEvent::Close);
                true
            },
        }
    }

    /// The connections of user `user`, each once.
    pub fn lookup(&self, user: u64) -> (r: Vec<u64>)
        requires
            self.wf(),
        ensures
            r@.no_duplicates(),
            forall|c: u64|
                #[trigger] r@.contains(c) <==> (self@.contains_key(c) && self@[c].user() == user),
    {
        let mut out: Vec<u64> = Vec::new();
        let mut i: usize = 0;
        while i < self.sessions.len()
            invariant
                i <= self.sessions@.len(),
                unique_connections(self.sessions@),
                out@.no_duplicates(),
                forall|c: u64| #[trigger] out@.contains(c) <==> (exists|j: int| 0 <= j < i && self.sessions@[j].connection() == c && self.sessions@[j].user() == user),
            decreases self.sessions@.len() - i,
        {
            if self.sessions[i].user_id() == user {
                let c = self.sessions[i].connection_id();
                let ghost prev = out@;
                proof {
                    if prev.contains(c) {
                        let j = choose|j: int| 0 <= j < i && self.sessions@[j].connection() == c && self.sessions@[j].user() == user;
                        assert(self.sessions@[j].connection() == self.sessions@[i as int].connection());
                    }
                }
                out.push(c);
                proof {
                    assert forall|a: int, b: int| 0 <= a < b < out@.len() implies out@[a] != out@[b] by {
                        if b == prev.len() {
                            assert(prev[a] == out@[a]);
                            assert(prev.contains(out@[a]));
                        } else {
                            assert(prev[a] == out@[a] && prev[b] == out@[b]);
                        }
                    }
                    assert forall|d: u64| #[trigger] out@.contains(d) <==> (exists|j: int| 0 <= j < i + 1 && self.sessions@[j].connection() == d && self.sessions@[j].user() == user) by {
                        if out@.contains(d) && d != c {
                            let k = choose|k: int| 0 <= k < out@.len() && out@[k] == d;
                            assert(prev[k] == d);
                            assert(prev.contains(d));
                        }
                        if d == c {
                            assert(out@[prev.len() as int] == d);
                        }
                        if (exists|j: int| 0 <= j < i + 1 && self.sessions@[j].connection() == d && self.sessions@[j].user() == user) && d != c {
                            let j = choose|j: int| 0 <= j < i + 1 && self.sessions@[j].connection() == d && self.sessions@[j].user() == user;
                            assert(j < i);
                            assert(prev.contains(d));
                            let k = choose|k: int| 0 <= k < prev.len() && prev[k] == d;
                            assert(out@[k] == d);
                        }
                    }
                }
            } else {
                proof {
                    assert forall|d: u64| #[trigger] out@.contains(d) <==> (exists|j: int| 0 <= j < i + 1 && self.sessions@[j].connection() == d && self.sessions@[j].user() == user) by {
                        if (exists|j: int| 0 <= j < i + 1 && self.sessions@[j].connection() == d && self.sessions@[j].user() == user) {
                            let j = choose|j: int| 0 <= j < i + 1 && self.sessions@[j].connection() == d && self.sessions@[j].user() == user;
                            assert(j < i);
                        }
                    }
                }
            }
            i = i + 1;
        }
        proof {
            assert forall|c: u64|
                #[trigger] out@.contains(c) <==> (self@.contains_key(c) && self@[c].user() == user) by {
                if self@.contains_key(c) {
                    let k = choose|k: int| 0 <= k < self.sessions@.len() && self.sessions@[k].connection() == c;
                    lemma_index(self.sessions@, k);
                }
                if out@.contains(c) {
                    let j = choose|j: int| 0 <= j < i && self.sessions@[j].connection() == c && self.sessions@[j].user() == user;
                    lemma_index(self.sessions@, j);
                }
            }
        }
        out
    }

    /// The user of the session of `conn`.
    pub fn user_of(&self, conn: u64) -> (r: Option<u64>)
        requires
            self.wf(),
        ensures
            !self@.contains_key(conn) ==> r is None,
            self@.contains_key(conn) ==> r == Some(self@[conn].user()),
    {
        match self.slot(conn) {
            None => None,
            Some(i) => Some(self.sessions[i].user_id()),
        }
    }

    /// Whether `conn` is the connection of a session of user `user`.
    pub fn user_is(&self, conn: u64, user: u64) -> (r: bool)
        requires
            self.wf(),
        ensures
            r == (self@.contains_key(conn) && self@[conn].user() == user),
    {
        match self.slot(conn) {
            None => false,
            Some(i) => self.sessions[i].user_id() == user,
        }
    }

    /// The lifecycle state of the session of `conn`.
    pub fn state_of(&self, conn: u64) -> (r: Option<SessionState>)
        requires
            self.wf(),
        ensures
            !self@.contains_key(conn) ==> r is None,
            self@.contains_key(conn) ==> r == Some(self@[conn].state_spec()),
    {
        match self.slot(conn) {
            None => None,
            Some(i) => Some(self.sessions[i].state()),
        }
    }

    /// Hands `f` to the session of `conn`; `None` when there is none.
    pub fn deliver(&mut self, conn: u64, f: OutboundFrame) -> (r: Option<EnqueueOutcome>)
        requires
            old(self).wf(),
        ensures
            final(self).wf(),
            !old(self)@.contains_key(conn) ==> r is None && final(self)@ == old(self)@,
            old(self)@.contains_key(conn) ==> {
                let s = old(self)@[conn];
                let t = final(self)@[conn];
                &&& r is Some
                &&& (t.state_spec(), t.queued(), r->0) == enqueue_result(s.state_spec(), s.queued(), s.cap(), s.policy_spec(), f)
                &&& t.connection() == conn && t.user() == s.user() && t.cap() == s.cap() && t.policy_spec() == s.policy_spec()
                &&& final(self)@ == old(self)@.insert(conn, t)
            },
    {
        match self.slot(conn) {
            None => None,
            Some(i) => {
                let ghost before = self.sessions@;
                let out = self.sessions[i].enqueue(f);
                proof {
                    lemma_update(before, i as int, self.sessions@[i as int]);
                    assert(self.sessions@ == before.update(i as int, self.sessions@[i as int]));
                    lemma_index(self.sessions@, i as int);
                }
                Some(out)
            },
        }
    }

    /// Applies `e` to the session of `conn`. `None` when there is none;
    /// otherwise whether this call released the session's queue.
    pub fn apply(&mut self, conn: u64, e: SessionEvent) -> (r: Option<bool>)
        requires
            old(self).wf(),
        ensures
            final(self).wf(),
            !old(self)@.contains_key(conn) ==> r is None && final(self)@ == old(self)@,
            old(self)@.contains_key(conn) ==> {
                let s = old(self)@[conn];
                let t = final(self)@[conn];
                &&& r is Some
                &&& s.applied(t, e)
                &&& r->0 == closes(s.state_spec(), t.state_spec())
                &&& final(self)@ == old(self)@.insert(conn, t)
            },
    {
        match self.slot(conn) {
            None => None,
            Some(i) => {
                let ghost before = self.sessions@;
                let out = self.sessions[i].apply(e);
                proof {
                    lemma_update(before, i as int, self.sessions@[i as int]);
                    assert(self.sessions@ == before.update(i as int, self.sessions@[i as int]));
                    lemma_index(self.sessions@, i as int);
                }
                Some(out)
            },
        }
    }

    /// Applies `e` to every session.
    pub fn apply_all(&mut self, e: SessionEvent)
        requires
            old(self).wf(),
        ensures
            final(self).wf(),
            final(self)@.dom() == old(self)@.dom(),
            forall|c: u64| #[trigger] old(self)@.contains_key(c) ==> old(self)@[c].applied(final(self)@[c], e),
    {
        let ghost before = self.sessions@;
        let mut i: usize = 0;
        while i < self.sessions.len()
            invariant
                i <= self.sessions@.len(),
                self.sessions@.len() == before.len(),
                unique_connections(before),
                forall|j: int| 0 <= j < before.len() ==> (#[trigger] before[j]).wf(),
                forall|j: int| 0 <= j < self.sessions@.len() ==> (#[trigger] self.sessions@[j]).wf(),
                forall|j: int| 0 <= j < self.sessions@.len() ==> (#[trigger] self.sessions@[j]).connection() == before[j].connection(),
                forall|j: int| i <= j < self.sessions@.len() ==> #[trigger] self.sessions@[j] == before[j],
                forall|j: int| 0 <= j < i ==> before[j].applied(#[trigger] self.sessions@[j], e),
            decreases self.sessions@.len() - i,
        {
            self.sessions[i].apply(e);
            i = i + 1;
        }
        proof {
            let after = self.sessions@;
            assert forall|a: int, b: int|
                0 <= a < after.len() && 0 <= b < after.len() && a != b implies #[trigger] after[a].connection()
                != #[trigger] after[b].connection() by {
                assert(before[a].connection() != before[b].connection());
            }
            assert forall|c: u64| #[trigger] self@.contains_key(c) == old(self)@.contains_key(c) by {
                if old(self)@.contains_key(c) {
                    let k = choose|k: int| 0 <= k < before.len() && before[k].connection() == c;
                    assert(after[k].connection() == c);
                }
                if self@.contains_key(c) {
                    let k = choose|k: int| 0 <= k < after.len() && after[k].connection() == c;
                    assert(before[k].connection() == c);
                }
            }
            assert(self@.dom() =~= old(self)@.dom());
            assert forall|c: u64| #[trigger] old(self)@.contains_key(c) implies old(self)@[c].applied(self@[c], e) by {
                let k = choose|k: int| 0 <= k < before.len() && before[k].connection() == c;
                lemma_index(before, k);
                lemma_index(after, k);
            }
        }
    }

    /// Takes the oldest frame waiting for the client of `conn`, if any.
    pub fn next_outbound(&mut self, conn: u64) -> (r: Option<OutboundFrame>)
        requires
            old(self).wf(),
        ensures
            final(self).wf(),
            !old(self)@.contains_key(conn) ==> r is None && final(self)@ == old(self)@,
            old(self)@.contains_key(conn) ==> {
                let s = old(self)@[conn];
                let t = final(self)@[conn];
                &&& s.queued().len() == 0 ==> r is None && t.queued() == s.queued()
                &&& s.queued().len() > 0 ==> r == Some(s.queued()[0]) && t.queued() == s.queued().drop_first()
                &&& t.state_spec() == s.state_spec()
                &&& t.connection() == conn && t.user() == s.user() && t.cap() == s.cap() && t.policy_spec() == s.policy_spec()
                &&& final(self)@ == old(self)@.insert(conn, t)
            },
    {
        match self.slot(conn) {
            None => None,
            Some(i) => {
                let ghost before = self.sessions@;
                let out = self.sessions[i].next_outbound();
                proof {
                    lemma_update(before, i as int, self.sessions@[i as int]);
                    assert(self.sessions@ == before.update(i as int, self.sessions@[i as int]));
                    lemma_index(self.sessions@, i as int);
                }
                out
            },
        }
    }
}

} // verus!
