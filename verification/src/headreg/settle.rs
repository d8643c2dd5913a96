//! Waiting, after a start, for a node's view of the network to settle.

use vstd::prelude::*;

verus! {

/// How long the census must stay the same, in milliseconds.
pub const READY_STABLE_MS: u64 = 10_000;

/// How long after the start a node goes ahead in any case, in milliseconds.
pub const READY_MAX_MS: u64 = 90_000;

/// How long a request waits for readiness, in milliseconds.
pub const READY_WAIT_MS: u64 = 20_000;

/// The time from `since` to `now`, zero where the clock reads earlier.
pub open spec fn passed(now: u64, since: u64) -> int {
    if now >= since {
        now - since
    } else {
        0
    }
}

/// Watches a count until it has settled.
#[derive(Clone, Copy, Debug)]
pub struct Settling {
    pub start_ms: u64,
    /// The count last seen, `None` before the first look.
    pub last: Option<usize>,
    pub stable_since_ms: u64,
    /// Once true, always true.
    pub ready: bool,
}

/// What a look at the count makes of it. It has settled once it is not zero and has been the
/// same for ten seconds; ninety seconds after the start it no longer matters.
pub open spec fn looked(s: Settling, count: usize, now: u64) -> Settling {
    if s.ready {
        s
    } else {
        let stable_since_ms = if s.last == Some(count) {
            s.stable_since_ms
        } else {
            now
        };
        Settling {
            start_ms: s.start_ms,
            last: Some(count),
            stable_since_ms,
            ready: (count > 0 && passed(now, stable_since_ms) >= READY_STABLE_MS) || passed(
                now,
                s.start_ms,
            ) >= READY_MAX_MS,
        }
    }
}

impl Settling {
    /// A start at `now`.
    pub fn new(now: u64) -> (s: Settling)
        ensures
            s == (Settling { start_ms: now, last: None, stable_since_ms: now, ready: false }),
    {
        Settling { start_ms: now, last: None, stable_since_ms: now, ready: false }
    }

    /// A look at the count.
    pub fn look(&mut self, count: usize, now: u64)
        ensures
            *final(self) == looked(*old(self), count, now),
    {
        if self.ready {
            return ;
        }
        let same = match self.last {
            Some(n) => n == count,
            None => false,
        };
        if !same {
            self.last = Some(count);
            self.stable_since_ms = now;
        }
        let settled = count > 0 && now.saturating_sub(self.stable_since_ms) >= READY_STABLE_MS;
        self.ready = settled || now.saturating_sub(self.start_ms) >= READY_MAX_MS;
    }

    /// Whether a request that has waited for `waited_ms` goes on waiting.
    pub fn holds_back(&self, waited_ms: u64) -> (wait: bool)
        ensures
            wait == (!self.ready && waited_ms < READY_WAIT_MS),
    {
        !self.ready && waited_ms < READY_WAIT_MS
    }
}

/// Readiness is never taken back.
pub proof fn law_readiness_is_kept(s: Settling, count: usize, now: u64)
    requires
        s.ready,
    ensures
        looked(s, count, now).ready,
{
}

/// A look at ninety seconds or later makes the node ready, whatever it sees.
pub proof fn law_readiness_is_bounded(s: Settling, count: usize, now: u64)
    requires
        passed(now, s.start_ms) >= READY_MAX_MS,
    ensures
        looked(s, count, now).ready,
{
}

/// Before that, a count that has just changed, or of nobody, leaves the node unready.
pub proof fn law_unsettled_is_not_ready(s: Settling, count: usize, now: u64)
    requires
        !s.ready,
        passed(now, s.start_ms) < READY_MAX_MS,
        s.last != Some(count) || count == 0,
    ensures
        !looked(s, count, now).ready,
{
}

/// The registry is ready once the count of nodes is not zero and has not changed for ten seconds,
/// and after ninety seconds in any case. Another count starts the ten seconds over.
pub proof fn law_readiness_comes_with_a_settled_count(s: Settling, count: usize, now: u64)
    requires
        !s.ready,
        now >= s.start_ms,
        now >= s.stable_since_ms,
    ensures
        ({
            let next = looked(s, count, now);
            let same = s.last == Some(count);
            &&& next.ready <==> now >= s.start_ms + 90_000 || (same && count > 0 && now
                >= s.stable_since_ms + 10_000)
            &&& next.start_ms == s.start_ms
            &&& next.last == Some(count)
            &&& same ==> next.stable_since_ms == s.stable_since_ms
            &&& !same ==> next.stable_since_ms == now
        }),
{
}

/// A request waits for a registry that is not ready, for twenty seconds at most.
pub proof fn law_requests_wait_for_readiness(s: Settling, waited_ms: u64, wait: bool)
    requires
        call_ensures(Settling::holds_back, (&s, waited_ms), wait),
    ensures
        wait <==> !s.ready && waited_ms < 20_000,
{
}

} // verus!
