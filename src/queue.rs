//! The bounded FIFO of frames waiting to be written to one connection.

use vstd::prelude::*;

verus! {

/// What a full queue does with one more frame.
#[derive(Clone, Copy, Debug, PartialEq, Eq, Structural)]
pub enum OverflowPolicy {
    /// Drop the oldest queued frame to make room: lossy, bounded staleness.
    DropOldest,
    /// Refuse the frame; the session then drains and closes.
    Disconnect,
}

/// Error codes carried by `error` frames.
#[derive(Clone, Copy, Debug, PartialEq, Eq, Structural)]
pub enum ErrorCode {
    PermissionDenied,
    Malformed,
    UnknownChannel,
    NotActive,
}

/// A frame for the client.
#[derive(Clone, Debug)]
pub enum OutboundFrame {
    Event { channel_id: u64, sender_id: u64, payload: Vec<u8> },
    Error { code: ErrorCode, detail: Vec<u8> },
    Ack,
}

/// `q` after pushing `f` into a queue of capacity `cap` that drops its
/// oldest frame when full.
pub open spec fn pushed(q: Seq<OutboundFrame>, cap: nat, f: OutboundFrame) -> Seq<OutboundFrame> {
    if q.len() < cap {
        q.push(f)
    } else {
        q.drop_first().push(f)
    }
}

/// `q` after pushing each frame of `fs` in turn.
pub open spec fn pushed_all(q: Seq<OutboundFrame>, cap: nat, fs: Seq<OutboundFrame>) -> Seq<
    OutboundFrame,
>
    decreases fs.len(),
{
    if fs.len() == 0 {
        q
    } else {
        pushed(pushed_all(q, cap, fs.drop_last()), cap, fs.last())
    }
}

pub struct OutboundQueue {
    frames: Vec<OutboundFrame>,
    capacity: usize,
}

impl View for OutboundQueue {
    type V = Seq<OutboundFrame>;

    closed spec fn view(&self) -> Seq<OutboundFrame> {
        self.frames@
    }
}

impl OutboundQueue {
    /// The most frames the queue holds.
    pub closed spec fn cap(&self) -> nat {
        self.capacity as nat
    }

    pub open spec fn wf(&self) -> bool {
        0 < self.cap() && self@.len() <= self.cap()
    }

    pub fn new(capacity: usize) -> (r: OutboundQueue)
        requires
            capacity > 0,
        ensures
            r.wf(),
            r@ == Seq::<OutboundFrame>::empty(),
            r.cap() == capacity,
    {
        OutboundQueue { frames: Vec::new(), capacity }
    }

    pub fn len(&self) -> (r: usize)
        ensures
            r == self@.len(),
    {
        self.frames.len()
    }

    pub fn capacity(&self) -> (r: usize)
        ensures
            r == self.cap(),
    {
        self.capacity
    }

    pub fn is_full(&self) -> (r: bool)
        requires
            self.wf(),
        ensures
            r == (self@.len() == self.cap()),
    {
        self.frames.len() >= self.capacity
    }

    /// Appends `f`, dropping the oldest frame first when the queue is full.
    /// Returns whether a frame was dropped.
    pub fn push_drop_oldest(&mut self, f: OutboundFrame) -> (dropped: bool)
        requires
            old(self).wf(),
        ensures
            final(self).wf(),
            final(self).cap() == old(self).cap(),
            final(self)@ == pushed(old(self)@, old(self).cap(), f),
            dropped == (old(self)@.len() == old(self).cap()),
    {
        let dropped = self.frames.len() >= self.capacity;
        if dropped {
            self.frames.remove(0);
        }
        self.frames.push(f);
        proof {
            if dropped {
                assert(self.frames@ =~= old(self).frames@.drop_first().push(f));
            }
        }
        dropped
    }

    /// Appends `f` unless the queue is full. Returns whether it was appended.
    pub fn try_push(&mut self, f: OutboundFrame) -> (accepted: bool)
        requires
            old(self).wf(),
        ensures
            final(self).wf(),
            final(self).cap() == old(self).cap(),
            accepted == (old(self)@.len() < old(self).cap()),
            accepted ==> final(self)@ == old(self)@.push(f),
            !accepted ==> final(self)@ == old(self)@,
    {
        if self.frames.len() >= self.capacity {
            false
        } else {
            self.frames.push(f);
            true
        }
    }

    /// Removes and returns the oldest frame.
    pub fn pop(&mut self) -> (r: Option<OutboundFrame>)
        requires
            old(self).wf(),
        ensures
            final(self).wf(),
            final(self).cap() == old(self).cap(),
            old(self)@.len() == 0 ==> r is None && final(self)@ == old(self)@,
            old(self)@.len() > 0 ==> r == Some(old(self)@[0]) && final(self)@ == old(self)@.drop_first(),
    {
        if self.frames.len() == 0 {
            None
        } else {
            let f = self.frames.remove(0);
            proof {
                assert(self.frames@ =~= old(self).frames@.drop_first());
            }
            Some(f)
        }
    }

    /// Drops every queued frame.
    pub fn clear(&mut self)
        requires
            old(self).wf(),
        ensures
            final(self).wf(),
            final(self).cap() == old(self).cap(),
            final(self)@ == Seq::<OutboundFrame>::empty(),
    {
        self.frames.clear();
        proof {
            assert(self.frames@ =~= Seq::<OutboundFrame>::empty());
        }
    }
}

/// With drop-oldest, pushing `fs` into a queue `q` of capacity `cap` keeps
/// exactly the newest `cap` frames of `q` followed by `fs`, in order, and the
/// queue never holds more than `cap` frames.
pub proof fn lemma_drop_oldest_keeps_newest(q: Seq<OutboundFrame>, cap: nat, fs: Seq<OutboundFrame>)
    requires
        0 < cap,
        q.len() <= cap,
    ensures
        pushed_all(q, cap, fs).len() <= cap,
        pushed_all(q, cap, fs) == (q + fs).subrange(
            if (q + fs).len() > cap {
                (q + fs).len() - cap
            } else {
                0
            },
            (q + fs).len() as int,
        ),
    decreases fs.len(),
{
    let all = q + fs;
    let n = all.len() as int;
    if fs.len() == 0 {
        assert(all =~= q);
        assert(all.subrange(0, n) =~= q);
    } else {
        let prev = fs.drop_last();
        lemma_drop_oldest_keeps_newest(q, cap, prev);
        let all_prev = q + prev;
        assert(all_prev =~= all.subrange(0, n - 1));
        let s_prev: int = if n - 1 > cap { n - 1 - cap } else { 0 };
        let r = pushed_all(q, cap, prev);
        assert(r =~= all.subrange(s_prev, n - 1));
        assert(all[n - 1] == fs.last());
        if r.len() < cap {
            assert(r.push(fs.last()) =~= all.subrange(s_prev, n));
        } else {
            assert(r.drop_first().push(fs.last()) =~= all.subrange(s_prev + 1, n));
        }
    }
}

} // verus!
