//! Per-worker request throttle: a minimum delay between successive
//! releases.
//!
//! The throttle never sleeps itself. It is told the current time and
//! answers with the pause that is still owed; the caller sleeps and asks
//! again.

use vstd::prelude::*;

verus! {

/// The mathematical value of a [`Throttle`]: times are milliseconds on one
/// clock.
pub ghost struct ThrottleView {
    /// Minimum distance between two releases.
    pub delay: nat,
    /// When the throttle last let its caller through (its creation counts).
    pub last_release: nat,
}

impl ThrottleView {
    /// The pause still owed at `now`.
    pub open spec fn remaining(self, now: nat) -> nat {
        if now >= self.last_release + self.delay {
            0
        } else {
            (self.last_release + self.delay - now) as nat
        }
    }

    /// Whether the caller may pass at `now`.
    pub open spec fn ready(self, now: nat) -> bool {
        self.remaining(now) == 0
    }

    /// The throttle after its caller asked to pass at `now`: a release is
    /// recorded exactly when the caller was let through.
    pub open spec fn waited(self, now: nat) -> ThrottleView {
        if self.ready(now) {
            ThrottleView { last_release: now, ..self }
        } else {
            self
        }
    }
}

/// The pause owed at `now`, cut to what a `u64` holds.
pub open spec fn pause_at(throttle: ThrottleView, now: nat) -> nat {
    if throttle.remaining(now) > u64::MAX {
        u64::MAX as nat
    } else {
        throttle.remaining(now)
    }
}

/// Two successive releases of a throttle are at least its delay apart:
/// a caller that is let through at `first` and again at `second` has
/// waited out the delay in between.
pub proof fn lemma_releases_are_spaced(throttle: ThrottleView, first: nat, second: nat)
    requires
        throttle.ready(first),
        throttle.waited(first).ready(second),
    ensures
        second >= first + throttle.delay,
        first >= throttle.last_release + throttle.delay,
{
}

/// A caller that is let through has nothing left to wait for, and one
/// that is held back is told the exact time that is missing.
pub proof fn lemma_pause_is_exact(throttle: ThrottleView, now: nat)
    ensures
        throttle.ready(now) <==> now >= throttle.last_release + throttle.delay,
        !throttle.ready(now) ==> throttle.ready(now + throttle.remaining(now)),
        !throttle.ready(now) ==> throttle.waited(now) == throttle,
{
}

/// Enforces a minimum delay between the requests of one worker.
#[derive(Clone, Copy, Debug, PartialEq, Eq)]
pub struct Throttle {
    delay_ms: u64,
    last_release_ms: u64,
}

impl View for Throttle {
    type V = ThrottleView;

    closed spec fn view(&self) -> ThrottleView {
        ThrottleView { delay: self.delay_ms as nat, last_release: self.last_release_ms as nat }
    }
}

impl Throttle {
    /// A throttle created at `now_ms`; its creation counts as a release, so
    /// the first pass is owed the full delay.
    pub fn new(delay_ms: u64, now_ms: u64) -> (throttle: Throttle)
        ensures
            throttle@ == (ThrottleView { delay: delay_ms as nat, last_release: now_ms as nat }),
    {
        Throttle { delay_ms, last_release_ms: now_ms }
    }

    /// The configured minimum delay.
    pub fn delay_ms(&self) -> (delay: u64)
        ensures
            delay == self@.delay,
    {
        self.delay_ms
    }

    /// The time of the last release.
    pub fn last_release_ms(&self) -> (last: u64)
        ensures
            last == self@.last_release,
    {
        self.last_release_ms
    }

    /// The pause still owed at `now_ms`; the throttle is left as it was.
    pub fn remaining(&self, now_ms: u64) -> (pause: u64)
        ensures
            pause == pause_at(self@, now_ms as nat),
    {
        let due: u128 = self.last_release_ms as u128 + self.delay_ms as u128;
        if now_ms as u128 >= due {
            0
        } else {
            let owed: u128 = due - now_ms as u128;
            if owed > u64::MAX as u128 {
                u64::MAX
            } else {
                owed as u64
            }
        }
    }

    /// Asks to pass at `now_ms`. A result of 0 lets the caller through and
    /// records the release; otherwise the caller sleeps for the result and
    /// asks again, and the throttle is unchanged.
    pub fn wait(&mut self, now_ms: u64) -> (pause: u64)
        ensures
            pause == pause_at(old(self)@, now_ms as nat),
            pause == 0 <==> old(self)@.ready(now_ms as nat),
            final(self)@ == old(self)@.waited(now_ms as nat),
            pause == 0 ==> now_ms >= old(self)@.last_release + old(self)@.delay,
    {
        let pause = self.remaining(now_ms);
        if pause == 0 {
            self.last_release_ms = now_ms;
        }
        pause
    }
}

} // verus!
