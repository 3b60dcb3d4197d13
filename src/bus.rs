//! The decisions of the bus link: reconnecting with capped exponential
//! backoff and resubscribing once the bus is back. The caller performs the
//! actions and reports what happened.
//!
//! While the link is down the gateway is degraded: local fan-out goes on,
//! delivery to other gateway instances does not.

use vstd::prelude::*;

verus! {

/// Delay before the first reconnection attempt.
pub const BACKOFF_BASE_MS: u64 = 100;
/// Longest delay between two reconnection attempts.
pub const BACKOFF_CAP_MS: u64 = 30000;

#[derive(Clone, Copy, Debug, PartialEq, Eq, Structural)]
pub enum BusState {
    Connected,
    /// Down; `attempt` reconnection attempts have failed so far.
    Reconnecting { attempt: u32 },
}

#[derive(Clone, Copy, Debug, PartialEq, Eq, Structural)]
pub enum BusEvent {
    /// A connection to the bus was established.
    Up,
    /// The connection to the bus was lost.
    Lost,
    /// A reconnection attempt failed.
    AttemptFailed,
}

#[derive(Clone, Copy, Debug, PartialEq, Eq, Structural)]
pub enum BusAction {
    /// Subscribe again to the topic of every channel with local subscribers.
    Resubscribe,
    /// Wait this many milliseconds, then try to connect.
    RetryAfter { delay_ms: u64 },
    Nothing,
}

/// Delay before reconnection attempt number `n + 1`: the base doubled `n`
/// times, never more than the cap.
pub open spec fn backoff(n: nat) -> nat
    decreases n,
{
    if n == 0 {
        BACKOFF_BASE_MS as nat
    } else {
        let d = 2 * backoff((n - 1) as nat);
        if d < BACKOFF_CAP_MS {
            d
        } else {
            BACKOFF_CAP_MS as nat
        }
    }
}

/// The link's next state and action on event `e` in state `s`.
pub open spec fn bus_step(s: BusState, e: BusEvent) -> (BusState, BusAction) {
    match e {
        BusEvent::Up => match s {
            BusState::Connected => (s, BusAction::Nothing),
            BusState::Reconnecting { .. } => (BusState::Connected, BusAction::Resubscribe),
        },
        BusEvent::Lost => match s {
            BusState::Connected => (
                BusState::Reconnecting { attempt: 0 },
                BusAction::RetryAfter { delay_ms: backoff(0) as u64 },
            ),
            BusState::Reconnecting { .. } => (s, BusAction::Nothing),
        },
        BusEvent::AttemptFailed => match s {
            BusState::Connected => (
                BusState::Reconnecting { attempt: 0 },
                BusAction::RetryAfter { delay_ms: backoff(0) as u64 },
            ),
            BusState::Reconnecting { attempt } => {
                let next: u32 = if attempt == u32::MAX {
                    attempt
                } else {
                    (attempt + 1) as u32
                };
                (
                    BusState::Reconnecting { attempt: next },
                    BusAction::RetryAfter { delay_ms: backoff(next as nat) as u64 },
                )
            },
        },
    }
}

/// The delay is at least the base and never more than the cap.
pub proof fn lemma_backoff_bounded(n: nat)
    ensures
        BACKOFF_BASE_MS <= backoff(n) <= BACKOFF_CAP_MS,
    decreases n,
{
    if n > 0 {
        lemma_backoff_bounded((n - 1) as nat);
    }
}

/// Once the delay reaches the cap it stays there.
pub proof fn lemma_backoff_stays_capped(k: nat, n: nat)
    requires
        k <= n,
        backoff(k) == BACKOFF_CAP_MS,
    ensures
        backoff(n) == BACKOFF_CAP_MS,
    decreases n - k,
{
    if k < n {
        lemma_backoff_stays_capped(k, (n - 1) as nat);
        lemma_backoff_bounded((n - 1) as nat);
    }
}

/// Each failed attempt waits at least as long as the one before.
pub proof fn lemma_backoff_monotone(n: nat)
    ensures
        backoff(n) <= backoff(n + 1),
{
    lemma_backoff_bounded(n);
}

/// Delay before reconnection attempt number `n + 1`.
pub fn backoff_ms(n: u32) -> (r: u64)
    ensures
        r == backoff(n as nat),
{
    let mut d: u64 = BACKOFF_BASE_MS;
    let mut i: u32 = 0;
    while i < n && d < BACKOFF_CAP_MS
        invariant
            i <= n,
            d == backoff(i as nat),
        decreases n - i,
    {
        proof {
            lemma_backoff_bounded(i as nat);
        }
        d = if 2 * d < BACKOFF_CAP_MS {
            2 * d
        } else {
            BACKOFF_CAP_MS
        };
        i = i + 1;
    }
    proof {
        if i < n {
            lemma_backoff_bounded(i as nat);
            lemma_backoff_stays_capped(i as nat, n as nat);
        }
    }
    d
}

/// The link's next state and action on event `e` in state `s`.
pub fn next_bus_step(s: BusState, e: BusEvent) -> (r: (BusState, BusAction))
    ensures
        r == bus_step(s, e),
{
    match e {
        BusEvent::Up => match s {
            BusState::Connected => (s, BusAction::Nothing),
            BusState::Reconnecting { .. } => (BusState::Connected, BusAction::Resubscribe),
        },
        BusEvent::Lost => match s {
            BusState::Connected => (
                BusState::Reconnecting { attempt: 0 },
                BusAction::RetryAfter { delay_ms: backoff_ms(0) },
            ),
            BusState::Reconnecting { .. } => (s, BusAction::Nothing),
        },
        BusEvent::AttemptFailed => match s {
            BusState::Connected => (
                BusState::Reconnecting { attempt: 0 },
                BusAction::RetryAfter { delay_ms: backoff_ms(0) },
            ),
            BusState::Reconnecting { attempt } => {
                let next: u32 = if attempt == u32::MAX {
                    attempt
                } else {
                    attempt + 1
                };
                (
                    BusState::Reconnecting { attempt: next },
                    BusAction::RetryAfter { delay_ms: backoff_ms(next) },
                )
            },
        },
    }
}

/// Whether the link is down, so that delivery to other gateway instances is
/// unavailable.
pub fn is_degraded(s: BusState) -> (r: bool)
    ensures
        r == (s != BusState::Connected),
{
    match s {
        BusState::Connected => false,
        BusState::Reconnecting { .. } => true,
    }
}

} // verus!
