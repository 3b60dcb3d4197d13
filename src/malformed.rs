//! The rate limit on malformed client frames: each one is answered with an
//! error frame, and a connection that sends more than `MALFORMED_LIMIT` of
//! them within one window of `MALFORMED_WINDOW_MS` milliseconds is closed.

use vstd::prelude::*;

verus! {

/// Malformed frames tolerated within one window.
pub const MALFORMED_LIMIT: u32 = 16;
/// Length of a window, in milliseconds.
pub const MALFORMED_WINDOW_MS: u64 = 10000;

/// The count of malformed frames in the current window of one connection.
#[derive(Clone, Copy, Debug, PartialEq, Eq, Structural)]
pub struct MalformedRate {
    /// When the current window began, in milliseconds.
    pub window_start: u64,
    /// Malformed frames seen in the current window.
    pub count: u32,
}

/// The counter after a malformed frame at `now`, and whether the connection
/// must now be closed. A frame at or after the end of the window, or before
/// its start, opens a new window; the count saturates.
pub open spec fn note_malformed(r: MalformedRate, now: u64) -> (MalformedRate, bool) {
    let fresh = now < r.window_start || now - r.window_start >= MALFORMED_WINDOW_MS;
    let next = if fresh {
        MalformedRate { window_start: now, count: 1 }
    } else {
        MalformedRate {
            window_start: r.window_start,
            count: if r.count == u32::MAX {
                r.count
            } else {
                (r.count + 1) as u32
            },
        }
    };
    (next, next.count > MALFORMED_LIMIT)
}

impl MalformedRate {
    /// A counter with no malformed frame, its window opening at `now`.
    pub fn new(now: u64) -> (r: MalformedRate)
        ensures
            r == (MalformedRate { window_start: now, count: 0 }),
    {
        MalformedRate { window_start: now, count: 0 }
    }

    /// Records a malformed frame at `now`; returns whether the connection
    /// must be closed.
    pub fn record(&mut self, now: u64) -> (close: bool)
        ensures
            (*final(self), close) == note_malformed(*old(self), now),
    {
        if now < self.window_start || now - self.window_start >= MALFORMED_WINDOW_MS {
            self.window_start = now;
            self.count = 1;
        } else if self.count < u32::MAX {
            self.count = self.count + 1;
        }
        self.count > MALFORMED_LIMIT
    }
}

} // verus!
