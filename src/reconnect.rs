use vstd::prelude::*;

verus! {

/// The first wait between connection attempts, in milliseconds.
pub const FIRST_DELAY_MS: u64 = 100;

/// How long connecting may go on before it is given up, in whole seconds.
pub const GIVE_UP_AFTER_S: u64 = 10;

/// The waiting schedule between attempts to reach the remote application.
pub struct Backoff {
    pub delay_ms: u64,
}

impl Backoff {
    pub fn new() -> (r: Backoff)
        ensures
            r.delay_ms == FIRST_DELAY_MS,
    {
        Backoff { delay_ms: FIRST_DELAY_MS }
    }

    /// The wait before the next attempt; the following wait is at least a
    /// second and grows by a tenth of a second each time.
    pub fn next_delay(&mut self) -> (r: u64)
        ensures
            r == old(self).delay_ms,
            final(self).delay_ms == if old(self).delay_ms + 100 > u64::MAX {
                u64::MAX
            } else if old(self).delay_ms + 100 < 1000 {
                1000
            } else {
                (old(self).delay_ms + 100) as u64
            },
    {
        let r = self.delay_ms;
        let grown = self.delay_ms.saturating_add(100);
        self.delay_ms = if grown < 1000 {
            1000
        } else {
            grown
        };
        r
    }
}

/// Whether to stop trying after this much time spent connecting.
pub fn gives_up(elapsed_ms: u64) -> (r: bool)
    ensures
        r == (elapsed_ms / 1000 > GIVE_UP_AFTER_S),
{
    elapsed_ms / 1000 > GIVE_UP_AFTER_S
}

} // verus!
