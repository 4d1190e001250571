//! How long to wait before connecting to an upstream again.

use crate::chance;
use crate::chance::RandomNumber;
use vstd::prelude::*;

verus! {

/// The wait after a stream that ended cleanly, in milliseconds.
pub const FIRST_WAIT_MS: u64 = 1000;

/// The longest wait, in milliseconds, random part not counted.
pub const LONGEST_WAIT_MS: u64 = 30000;

/// The wait that is due next.
#[derive(Debug, Clone, Copy, PartialEq, Eq, Structural)]
pub struct Backoff {
    pub wait_ms: u64,
}

/// The wait after one of `wait_ms`.
pub open spec fn doubled(wait_ms: u64) -> u64 {
    if 2 * wait_ms < LONGEST_WAIT_MS {
        (2 * wait_ms) as u64
    } else {
        LONGEST_WAIT_MS
    }
}

/// The wait after as many failures in a row.
pub open spec fn wait_after(failures: nat) -> u64
    decreases failures,
{
    if failures == 0 {
        FIRST_WAIT_MS
    } else {
        doubled(wait_after((failures - 1) as nat))
    }
}

impl Backoff {
    /// The wait lies between the shortest and the longest.
    pub open spec fn wf(self) -> bool {
        FIRST_WAIT_MS <= self.wait_ms <= LONGEST_WAIT_MS
    }

    /// The wait that an attempt with this outcome calls for.
    pub open spec fn due(self, clean: bool) -> u64 {
        if clean {
            FIRST_WAIT_MS
        } else {
            self.wait_ms
        }
    }

    /// The first wait is the shortest.
    pub fn new() -> (b: Backoff)
        ensures
            b.wf(),
            b.wait_ms == FIRST_WAIT_MS,
    {
        Backoff { wait_ms: FIRST_WAIT_MS }
    }

    /// The most that chance may add to the wait that is due: half of it.
    pub fn max_jitter(&self, clean: bool) -> (r: u64)
        ensures
            r == self.due(clean) / 2,
    {
        if clean {
            FIRST_WAIT_MS / 2
        } else {
            self.wait_ms / 2
        }
    }

    /// Takes how an attempt ended and what chance adds; returns how long to wait, and doubles the
    /// wait that is due next.
    pub fn pause_with(&mut self, clean: bool, jitter_ms: u64) -> (sleep_ms: u64)
        requires
            old(self).wf(),
            jitter_ms <= old(self).due(clean) / 2,
        ensures
            final(self).wf(),
            is_pause(*old(self), *final(self), clean, jitter_ms, sleep_ms),
    {
        let wait: u64 = if clean {
            FIRST_WAIT_MS
        } else {
            self.wait_ms
        };
        self.wait_ms = if 2 * wait < LONGEST_WAIT_MS {
            2 * wait
        } else {
            LONGEST_WAIT_MS
        };
        wait + jitter_ms
    }

    /// Takes how an attempt ended; returns how long to wait, with a random part so that not all
    /// come back at once.
    pub fn pause(&mut self, clean: bool) -> (sleep_ms: u64)
        requires
            old(self).wf(),
        ensures
            final(self).wf(),
            old(self).due(clean) <= sleep_ms <= old(self).due(clean) + old(self).due(clean) / 2,
            exists|drawn: RandomNumber|
                drawn.max() == old(self).due(clean) / 2 && is_pause(
                    *old(self),
                    *final(self),
                    clean,
                    #[trigger] drawn.value(),
                    sleep_ms,
                ),
    {
        let drawn = chance::random_up_to(self.max_jitter(clean));
        self.pause_with(clean, drawn.get())
    }
}

/// What comes of an attempt that ended so, with what chance added: how long to wait, and what is due
/// next.
pub open spec fn is_pause(
    before: Backoff,
    after: Backoff,
    clean: bool,
    jitter_ms: u64,
    sleep_ms: u64,
) -> bool {
    &&& sleep_ms == before.due(clean) + jitter_ms
    &&& after.wait_ms == doubled(before.due(clean))
}

/// One waits a second after a clean end and else the wait that is due, with what chance adds on top; the
/// wait that is due next is twice the one that was, up to half a minute.
pub proof fn law_pause_is_the_wait_and_chance(
    before: Backoff,
    after: Backoff,
    clean: bool,
    jitter_ms: u64,
    sleep_ms: u64,
)
    requires
        before.wf(),
        is_pause(before, after, clean, jitter_ms, sleep_ms),
    ensures
        clean ==> sleep_ms == 1000 + jitter_ms && after.wait_ms == 2000,
        !clean ==> sleep_ms == before.wait_ms + jitter_ms,
        !clean && before.wait_ms <= 15000 ==> after.wait_ms == 2 * before.wait_ms,
        !clean && before.wait_ms > 15000 ==> after.wait_ms == 30000,
{
}

/// After a stream that ended cleanly the wait is one second, and after a failure it is the one that is
/// due; the next one is twice as long, but no longer than half a minute.
pub proof fn law_wait_doubles_from_one_second(b: Backoff, clean: bool)
    requires
        b.wf(),
    ensures
        1000 <= b.wait_ms <= 30000,
        b.due(true) == 1000,
        b.due(false) == b.wait_ms,
        b.due(clean) <= 15000 ==> doubled(b.due(clean)) == 2 * b.due(clean),
        b.due(clean) > 15000 ==> doubled(b.due(clean)) == 30000,
        wait_after(0) == 1000,
{
}

/// Waits grow from failure to failure, never beyond the longest, which they reach after five.
pub proof fn law_waits_grow_to_the_longest(failures: nat)
    ensures
        FIRST_WAIT_MS <= wait_after(failures) <= LONGEST_WAIT_MS,
        wait_after(failures) <= wait_after(failures + 1),
        failures >= 5 ==> wait_after(failures) == LONGEST_WAIT_MS,
    decreases failures,
{
    if failures > 0 {
        law_waits_grow_to_the_longest((failures - 1) as nat);
    }
    if failures >= 5 {
        reveal_with_fuel(wait_after, 7);
        if failures > 5 {
            law_waits_grow_to_the_longest((failures - 1) as nat);
        }
    }
}

} // verus!
