//! Truncated exponential backoff with jitter.
//!
//! The generator keeps a current period; every draw returns the period plus
//! a random jitter below half the period, then doubles the period up to the
//! configured cap. Reaching a healthy connection resets the period to its
//! initial value.

use vstd::prelude::*;

verus! {

/// Source of jitter.
///
/// Relies on `rand::random`, which draws a value from the thread-local
/// generator; nothing is promised of the result.
pub assume_specification<T>[ rand::random::<T> ]() -> (r: T)
    where
        rand::distributions::Standard: rand::distributions::Distribution<T>,
;

/// Backoff period generator, all quantities in milliseconds.
#[derive(Clone, Debug, PartialEq, Eq, Structural)]
pub struct Backoff {
    /// The next period to hand out (before jitter).
    pub current_ms: u64,
    /// The period installed by `reset`.
    pub initial_ms: u64,
    /// Cap on the period.
    pub max_ms: u64,
}

/// The period after one draw: doubled, truncated at the cap.
pub open spec fn spec_next_period(current: u64, max: u64) -> u64 {
    if 2 * current <= max {
        (2 * current) as u64
    } else {
        max
    }
}

/// Exactly what one draw observes and does: the bounds of the returned
/// value and the new period. The jitter is random, so only its range is
/// stated: it is below half the pre-draw period (and zero when the period
/// is too small to halve).
pub open spec fn next_step(pre: Backoff, r: u64, post: Backoff) -> bool {
    &&& post.initial_ms == pre.initial_ms
    &&& post.max_ms == pre.max_ms
    &&& post.current_ms == spec_next_period(pre.current_ms, pre.max_ms)
    &&& r >= pre.current_ms
    &&& pre.current_ms >= 2 ==> r < pre.current_ms + pre.current_ms / 2
    &&& pre.current_ms < 2 ==> r == pre.current_ms
}

impl Backoff {
    /// The period stays within `[initial_ms, max_ms]`.
    pub open spec fn wf(self) -> bool {
        &&& self.initial_ms <= self.current_ms
        &&& self.current_ms <= self.max_ms
    }

    /// Builds a generator over the inclusive period range
    /// `[initial, max]`.
    pub fn with_duration_range(initial: u32, max: u32) -> (r: Backoff)
        requires
            initial <= max,
        ensures
            r.current_ms == initial,
            r.initial_ms == initial,
            r.max_ms == max,
            r.wf(),
    {
        Backoff { current_ms: initial as u64, initial_ms: initial as u64, max_ms: max as u64 }
    }

    /// Draws the next backoff delay: the current period plus a jitter in
    /// `[0, period / 2)`, then doubles the period up to the cap.
    pub fn next_backoff_ms(&mut self) -> (r: u64)
        requires
            old(self).wf(),
            old(self).max_ms <= 0xffff_ffff,
        ensures
            next_step(*old(self), r, *final(self)),
            final(self).wf(),
    {
        let period = self.current_ms;
        let half = period / 2;
        let jitter: u64 = if half == 0 {
            0
        } else {
            let raw: u64 = rand::random::<u64>();
            raw % half
        };
        let delay = period + jitter;
        let doubled = period * 2;
        self.current_ms = if doubled <= self.max_ms {
            doubled
        } else {
            self.max_ms
        };
        delay
    }

    /// Returns the period to its initial value, so that the next draw is
    /// again in `[initial_ms, initial_ms * 3 / 2)`.
    pub fn reset(&mut self)
        requires
            old(self).wf(),
        ensures
            final(self).current_ms == old(self).initial_ms,
            final(self).initial_ms == old(self).initial_ms,
            final(self).max_ms == old(self).max_ms,
            final(self).wf(),
    {
        self.current_ms = self.initial_ms;
    }
}

/// Backoff monotonicity: over two consecutive draws, as long as doubling
/// the first period does not overshoot the cap, the second delay is at
/// least the first. (Once the period is pinned at the cap, delays stay in
/// `[max_ms, max_ms * 3 / 2)` but need not grow from draw to draw.)
pub proof fn lemma_backoff_monotonic(b0: Backoff, r1: u64, b1: Backoff, r2: u64, b2: Backoff)
    requires
        b0.wf(),
        next_step(b0, r1, b1),
        next_step(b1, r2, b2),
        2 * b0.current_ms <= b0.max_ms,
    ensures
        r2 >= r1,
{
}

/// Every draw leaves the period no smaller than before and never above the
/// cap, so the delays themselves never fall below the configured initial
/// period.
pub proof fn lemma_backoff_period_bounds(b0: Backoff, r: u64, b1: Backoff)
    requires
        b0.wf(),
        next_step(b0, r, b1),
    ensures
        b1.current_ms >= b0.current_ms,
        b1.wf(),
        r >= b0.initial_ms,
{
}

} // verus!
