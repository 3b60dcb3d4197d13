//! The topic router: which connections subscribe to which channels.
//!
//! A channel has a topic exactly while at least one connection subscribes to
//! it; the last unsubscription removes it.

use vstd::prelude::*;

verus! {

pub struct TopicRouter {
    /// Pairs of channel id and connection id, each at most once.
    subscriptions: Vec<(u64, u64)>,
}

impl View for TopicRouter {
    type V = Set<(u64, u64)>;

    closed spec fn view(&self) -> Set<(u64, u64)> {
        Set::new(|p: (u64, u64)| self.subscriptions@.contains(p))
    }
}

/// The connections that subscribe to `ch` in the subscription set `s`.
pub open spec fn subscribers_in(s: Set<(u64, u64)>, ch: u64) -> Set<u64> {
    Set::new(|c: u64| s.contains((ch, c)))
}

/// The channels that have a topic in the subscription set `s`.
pub open spec fn topics_in(s: Set<(u64, u64)>) -> Set<u64> {
    Set::new(|ch: u64| exists|c: u64| s.contains((ch, c)))
}

/// `s` without any subscription of connection `conn`.
pub open spec fn without_connection(s: Set<(u64, u64)>, conn: u64) -> Set<(u64, u64)> {
    Set::new(|p: (u64, u64)| s.contains(p) && p.1 != conn)
}

impl TopicRouter {
    pub closed spec fn wf(&self) -> bool {
        self.subscriptions@.no_duplicates()
    }

    pub fn new() -> (r: TopicRouter)
        ensures
            r.wf(),
            r@ == Set::<(u64, u64)>::empty(),
    {
        let r = TopicRouter { subscriptions: Vec::new() };
        assert(r@ =~= Set::<(u64, u64)>::empty());
        r
    }

    fn index_of(&self, ch: u64, conn: u64) -> (r: Option<usize>)
        ensures
            r is None ==> !self.subscriptions@.contains((ch, conn)),
            r matches Some(i) ==> i < self.subscriptions@.len() && self.subscriptions@[i as int] == (
            ch,
            conn,
            ),
    {
        let mut i: usize = 0;
        while i < self.subscriptions.len()
            invariant
                i <= self.subscriptions@.len(),
                forall|j: int| 0 <= j < i ==> self.subscriptions@[j] != (ch, conn),
            decreases self.subscriptions@.len() - i,
        {
            let p = self.subscriptions[i];
            if p.0 == ch && p.1 == conn {
                return Some(i);
            }
            i = i + 1;
        }
        None
    }

    /// Adds `conn` to the subscribers of `ch`. Returns whether it was new.
    pub fn subscribe(&mut self, ch: u64, conn: u64) -> (added: bool)
        requires
            old(self).wf(),
        ensures
            final(self).wf(),
            final(self)@ == old(self)@.insert((ch, conn)),
            added == !old(self)@.contains((ch, conn)),
    {
        match self.index_of(ch, conn) {
            Some(_) => {
                assert(self@ =~= old(self)@.insert((ch, conn)));
                false
            },
            None => {
                self.subscriptions.push((ch, conn));
                proof {
                    assert forall|i: int, j: int|
                        0 <= i < j < self.subscriptions@.len() implies self.subscriptions@[i]
                        != self.subscriptions@[j] by {
                        if j == self.subscriptions@.len() - 1 {
                            assert(old(self).subscriptions@[i] == self.subscriptions@[i]);
                        }
                    }
                    let o = old(self).subscriptions@;
                    assert(self.subscriptions@ == o.push((ch, conn)));
                    assert forall|p: (u64, u64)| self@.contains(p) == old(self)@.insert((ch, conn)).contains(p) by {
                        if o.contains(p) {
                            let k = choose|k: int| 0 <= k < o.len() && o[k] == p;
                            assert(self.subscriptions@[k] == p);
                        }
                        if p == (ch, conn) {
                            assert(self.subscriptions@[o.len() as int] == p);
                        }
                        if self.subscriptions@.contains(p) && p != (ch, conn) {
                            let k = choose|k: int| 0 <= k < self.subscriptions@.len() && self.subscriptions@[k] == p;
                            assert(o[k] == p);
                        }
                    }
                    assert(self@ =~= old(self)@.insert((ch, conn)));
                }
                true
            },
        }
    }

    /// Removes `conn` from the subscribers of `ch`. Returns whether it was
    /// there.
    pub fn unsubscribe(&mut self, ch: u64, conn: u64) -> (removed: bool)
        requires
            old(self).wf(),
        ensures
            final(self).wf(),
            final(self)@ == old(self)@.remove((ch, conn)),
            removed == old(self)@.contains((ch, conn)),
    {
        match self.index_of(ch, conn) {
            Some(i) => {
                self.subscriptions.remove(i);
                proof {
                    let o = old(self).subscriptions@;
                    assert(self.subscriptions@ =~= o.subrange(0, i as int) + o.subrange(
                        i as int + 1,
                        o.len() as int,
                    ));
                    assert forall|p: (u64, u64)| self@.contains(p) == old(self)@.remove((ch, conn)).contains(p) by {
                        if old(self)@.contains(p) && p != (ch, conn) {
                            let k = choose|k: int| 0 <= k < o.len() && o[k] == p;
                            if k < i {
                                assert(self.subscriptions@[k] == p);
                            } else {
                                assert(k != i);
                                assert(self.subscriptions@[k - 1] == p);
                            }
                        }
                        if self@.contains(p) {
                            let k = choose|k: int| 0 <= k < self.subscriptions@.len() && self.subscriptions@[k] == p;
                            if k < i {
                                assert(o[k] == p);
                            } else {
                                assert(o[k + 1] == p);
                            }
                        }
                    }
                    assert(self@ =~= old(self)@.remove((ch, conn)));
                }
                true
            },
            None => {
                assert(self@ =~= old(self)@.remove((ch, conn)));
                false
            },
        }
    }

    /// Removes every subscription of `conn`.
    pub fn remove_connection(&mut self, conn: u64)
        requires
            old(self).wf(),
        ensures
            final(self).wf(),
            final(self)@ == without_connection(old(self)@, conn),
    {
        let mut kept: Vec<(u64, u64)> = Vec::new();
        let mut i: usize = 0;
        while i < self.subscriptions.len()
            invariant
                i <= self.subscriptions@.len(),
                self.subscriptions@.no_duplicates(),
                kept@.no_duplicates(),
                forall|p: (u64, u64)| kept@.contains(p) <==> (exists|j: int| 0 <= j < i && #[trigger] self.subscriptions@[j] == p && p.1 != conn),
            decreases self.subscriptions@.len() - i,
        {
            let p = self.subscriptions[i];
            if p.1 != conn {
                proof {
                    if kept@.contains(p) {
                        let j = choose|j: int| 0 <= j < i && #[trigger] self.subscriptions@[j] == p && p.1 != conn;
                        assert(self.subscriptions@[j] == self.subscriptions@[i as int]);
                    }
                }
                let ghost prev = kept@;
                kept.push(p);
                proof {
                    assert forall|a: int, b: int| 0 <= a < b < kept@.len() implies kept@[a] != kept@[b] by {
                        if b == prev.len() {
                            assert(prev[a] == kept@[a]);
                            assert(prev.contains(kept@[a]));
                        } else {
                            assert(prev[a] == kept@[a] && prev[b] == kept@[b]);
                        }
                    }
                    assert forall|q: (u64, u64)| kept@.contains(q) <==> (exists|j: int| 0 <= j < i + 1 && #[trigger] self.subscriptions@[j] == q && q.1 != conn) by {
                        if kept@.contains(q) && q != p {
                            let k = choose|k: int| 0 <= k < kept@.len() && kept@[k] == q;
                            assert(prev[k] == q);
                            assert(prev.contains(q));
                        }
                        if q == p {
                            assert(kept@[prev.len() as int] == q);
                            assert(self.subscriptions@[i as int] == q);
                        }
                        if (exists|j: int| 0 <= j < i + 1 && #[trigger] self.subscriptions@[j] == q && q.1 != conn) && q != p {
                            let j = choose|j: int| 0 <= j < i + 1 && #[trigger] self.subscriptions@[j] == q && q.1 != conn;
                            assert(j < i);
                            assert(prev.contains(q));
                            let k = choose|k: int| 0 <= k < prev.len() && prev[k] == q;
                            assert(kept@[k] == q);
                        }
                    }
                }
            } else {
                proof {
                    assert forall|q: (u64, u64)| kept@.contains(q) <==> (exists|j: int| 0 <= j < i + 1 && #[trigger] self.subscriptions@[j] == q && q.1 != conn) by {
                        if (exists|j: int| 0 <= j < i + 1 && #[trigger] self.subscriptions@[j] == q && q.1 != conn) {
                            let j = choose|j: int| 0 <= j < i + 1 && #[trigger] self.subscriptions@[j] == q && q.1 != conn;
                            assert(j < i);
                        }
                    }
                }
            }
            i = i + 1;
        }
        let ghost before = self@;
        self.subscriptions = kept;
        proof {
            assert forall|p: (u64, u64)| self@.contains(p) == without_connection(before, conn).contains(p) by {
                if before.contains(p) {
                    let j = choose|j: int| 0 <= j < old(self).subscriptions@.len() && old(self).subscriptions@[j] == p;
                    assert(old(self).subscriptions@[j] == p);
                }
            }
            assert(self@ =~= without_connection(old(self)@, conn));
        }
    }

    /// The connections subscribed to `ch`, each once.
    pub fn subscribers(&self, ch: u64) -> (r: Vec<u64>)
        requires
            self.wf(),
        ensures
            r@.no_duplicates(),
            forall|c: u64| r@.contains(c) <==> subscribers_in(self@, ch).contains(c),
    {
        let mut out: Vec<u64> = Vec::new();
        let mut i: usize = 0;
        while i < self.subscriptions.len()
            invariant
                i <= self.subscriptions@.len(),
                self.subscriptions@.no_duplicates(),
                out@.no_duplicates(),
                forall|c: u64| out@.contains(c) <==> (exists|j: int| 0 <= j < i && #[trigger] self.subscriptions@[j] == (ch, c)),
            decreases self.subscriptions@.len() - i,
        {
            let p = self.subscriptions[i];
            if p.0 == ch {
                proof {
                    if out@.contains(p.1) {
                        let j = choose|j: int| 0 <= j < i && #[trigger] self.subscriptions@[j] == (ch, p.1);
                        assert(self.subscriptions@[j] == self.subscriptions@[i as int]);
                    }
                }
                let ghost prev = out@;
                out.push(p.1);
                proof {
                    assert forall|a: int, b: int| 0 <= a < b < out@.len() implies out@[a] != out@[b] by {
                        if b == prev.len() {
                            assert(prev[a] == out@[a]);
                            assert(prev.contains(out@[a]));
                        } else {
                            assert(prev[a] == out@[a] && prev[b] == out@[b]);
                        }
                    }
                    assert forall|c: u64| out@.contains(c) <==> (exists|j: int| 0 <= j < i + 1 && #[trigger] self.subscriptions@[j] == (ch, c)) by {
                        if out@.contains(c) && c != p.1 {
                            let k = choose|k: int| 0 <= k < out@.len() && out@[k] == c;
                            assert(prev[k] == c);
                            assert(prev.contains(c));
                        }
                        if c == p.1 {
                            assert(out@[prev.len() as int] == c);
                            assert(self.subscriptions@[i as int] == (ch, c));
                        }
                        if (exists|j: int| 0 <= j < i + 1 && #[trigger] self.subscriptions@[j] == (ch, c)) && c != p.1 {
                            let j = choose|j: int| 0 <= j < i + 1 && #[trigger] self.subscriptions@[j] == (ch, c);
                            assert(j < i);
                            assert(prev.contains(c));
                            let k = choose|k: int| 0 <= k < prev.len() && prev[k] == c;
                            assert(out@[k] == c);
                        }
                    }
                }
            } else {
                proof {
                    assert forall|c: u64| out@.contains(c) <==> (exists|j: int| 0 <= j < i + 1 && #[trigger] self.subscriptions@[j] == (ch, c)) by {
                        if (exists|j: int| 0 <= j < i + 1 && #[trigger] self.subscriptions@[j] == (ch, c)) {
                            let j = choose|j: int| 0 <= j < i + 1 && #[trigger] self.subscriptions@[j] == (ch, c);
                            assert(j < i);
                        }
                    }
                }
            }
            i = i + 1;
        }
        proof {
            assert forall|c: u64| out@.contains(c) <==> subscribers_in(self@, ch).contains(c) by {
                if self@.contains((ch, c)) {
                    let j = choose|j: int| 0 <= j < self.subscriptions@.len() && self.subscriptions@[j] == (ch, c);
                    assert(self.subscriptions@[j] == (ch, c));
                }
            }
        }
        out
    }

    /// The channels that have a topic, each once.
    pub fn topics(&self) -> (r: Vec<u64>)
        requires
            self.wf(),
        ensures
            r@.no_duplicates(),
            forall|ch: u64| r@.contains(ch) <==> topics_in(self@).contains(ch),
    {
        let mut out: Vec<u64> = Vec::new();
        let mut i: usize = 0;
        while i < self.subscriptions.len()
            invariant
                i <= self.subscriptions@.len(),
                out@.no_duplicates(),
                forall|ch: u64| out@.contains(ch) <==> (exists|j: int| 0 <= j < i && #[trigger] self.subscriptions@[j].0 == ch),
            decreases self.subscriptions@.len() - i,
        {
            let ch = self.subscriptions[i].0;
            let mut seen = false;
            let mut k: usize = 0;
            while k < out.len()
                invariant
                    k <= out@.len(),
                    seen == (exists|j: int| 0 <= j < k && out@[j] == ch),
                decreases out@.len() - k,
            {
                if out[k] == ch {
                    seen = true;
                }
                k = k + 1;
            }
            if !seen {
                let ghost prev = out@;
                out.push(ch);
                proof {
                    assert forall|a: int, b: int| 0 <= a < b < out@.len() implies out@[a] != out@[b] by {
                        if b == prev.len() {
                            assert(prev[a] == out@[a]);
                        } else {
                            assert(prev[a] == out@[a] && prev[b] == out@[b]);
                        }
                    }
                    assert forall|d: u64| out@.contains(d) <==> (exists|j: int| 0 <= j < i + 1 && #[trigger] self.subscriptions@[j].0 == d) by {
                        if out@.contains(d) && d != ch {
                            let m = choose|m: int| 0 <= m < out@.len() && out@[m] == d;
                            assert(prev[m] == d);
                            assert(prev.contains(d));
                        }
                        if d == ch {
                            assert(out@[prev.len() as int] == d);
                            assert(self.subscriptions@[i as int].0 == d);
                        }
                        if (exists|j: int| 0 <= j < i + 1 && #[trigger] self.subscriptions@[j].0 == d) && d != ch {
                            let j = choose|j: int| 0 <= j < i + 1 && #[trigger] self.subscriptions@[j].0 == d;
                            assert(j < i);
                            assert(prev.contains(d));
                            let m = choose|m: int| 0 <= m < prev.len() && prev[m] == d;
                            assert(out@[m] == d);
                        }
                    }
                }
            } else {
                proof {
                    assert forall|d: u64| out@.contains(d) <==> (exists|j: int| 0 <= j < i + 1 && #[trigger] self.subscriptions@[j].0 == d) by {
                        if (exists|j: int| 0 <= j < i + 1 && #[trigger] self.subscriptions@[j].0 == d) {
                            let j = choose|j: int| 0 <= j < i + 1 && #[trigger] self.subscriptions@[j].0 == d;
                            if j == i {
                                let m = choose|m: int| 0 <= m < out@.len() && out@[m] == ch;
                                assert(out@.contains(ch));
                            }
                        }
                    }
                }
            }
            i = i + 1;
        }
        proof {
            assert forall|ch: u64| out@.contains(ch) <==> topics_in(self@).contains(ch) by {
                if topics_in(self@).contains(ch) {
                    let c = choose|c: u64| self@.contains((ch, c));
                    let j = choose|j: int| 0 <= j < self.subscriptions@.len() && self.subscriptions@[j] == (ch, c);
                    assert(self.subscriptions@[j].0 == ch);
                }
                if out@.contains(ch) {
                    let j = choose|j: int| 0 <= j < i && #[trigger] self.subscriptions@[j].0 == ch;
                    let p = self.subscriptions@[j];
                    assert(self@.contains(p));
                    assert(self@.contains((ch, p.1)));
                }
            }
        }
        out
    }

    /// Whether `conn` subscribes to `ch`.
    pub fn is_subscribed(&self, ch: u64, conn: u64) -> (r: bool)
        ensures
            r == self@.contains((ch, conn)),
    {
        self.index_of(ch, conn).is_some()
    }
}

} // verus!
