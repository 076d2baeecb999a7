//! Reconnection with exponential backoff.

use vstd::prelude::*;

use crate::config::Backend;
use crate::engine::DaemonError;
use crate::hal::DriverError;

verus! {

/// The wait before the first attempt.
pub const RECONNECT_INITIAL_BACKOFF_MS: u64 = 100;

/// No wait is longer than this.
pub const RECONNECT_MAX_BACKOFF_MS: u64 = 5000;

/// After this many attempts the device is given up.
pub const RECONNECT_MAX_ATTEMPTS: u32 = 8;

/// What to do next.
#[derive(Clone, Copy, PartialEq, Eq, Structural, Debug)]
pub enum ReconnectAction {
    /// Wait, unless cancelled meanwhile.
    Wait { ms: u64 },
    /// Open the device with this backend.
    Open { backend: Backend },
    /// Give the device up.
    GiveUp,
}

/// How far the reconnection to one device has come.
#[derive(Clone, Copy, PartialEq, Eq, Structural, Debug)]
pub struct Reconnect {
    pub attempts: u32,
    pub backoff_ms: u64,
}

/// Only a device that is gone may come back; any other failure is final.
pub open spec fn retriable(error: DaemonError) -> bool {
    error == DaemonError::Driver(DriverError::Disconnected)
}

impl Reconnect {
    pub open spec fn wf(&self) -> bool {
        self.backoff_ms <= RECONNECT_MAX_BACKOFF_MS
    }

    /// Before any attempt.
    pub open spec fn initial() -> Reconnect {
        Reconnect { attempts: 0, backoff_ms: RECONNECT_INITIAL_BACKOFF_MS }
    }

    /// Wait for another attempt, as long as attempts are left.
    pub open spec fn pending(&self) -> ReconnectAction {
        if self.attempts >= RECONNECT_MAX_ATTEMPTS {
            ReconnectAction::GiveUp
        } else {
            ReconnectAction::Wait { ms: self.backoff_ms }
        }
    }

    /// After a wait, an attempt begins.
    pub open spec fn attempted(&self) -> Reconnect {
        if self.attempts >= RECONNECT_MAX_ATTEMPTS {
            *self
        } else {
            Reconnect { attempts: (self.attempts + 1) as u32, ..*self }
        }
    }

    /// After an attempt that may be repeated, the wait doubles up to its limit.
    pub open spec fn backed_off(&self) -> Reconnect {
        Reconnect {
            backoff_ms: if 2 * self.backoff_ms <= RECONNECT_MAX_BACKOFF_MS {
                (2 * self.backoff_ms) as u64
            } else {
                RECONNECT_MAX_BACKOFF_MS
            },
            ..*self
        }
    }

    /// Before any attempt.
    pub fn new() -> (r: Reconnect)
        ensures
            r == Reconnect::initial(),
            r.wf(),
    {
        Reconnect { attempts: 0, backoff_ms: RECONNECT_INITIAL_BACKOFF_MS }
    }

    /// What to do before the next attempt.
    pub fn next(&self) -> (action: ReconnectAction)
        ensures
            action == self.pending(),
    {
        if self.attempts >= RECONNECT_MAX_ATTEMPTS {
            ReconnectAction::GiveUp
        } else {
            ReconnectAction::Wait { ms: self.backoff_ms }
        }
    }

    /// The wait is over; `backend` is the one that the driver table gives for the device.
    pub fn waited(&mut self, backend: Option<Backend>) -> (action: ReconnectAction)
        requires
            old(self).wf(),
        ensures
            final(self).wf(),
            *final(self) == old(self).attempted(),
            match backend {
                Some(b) if old(self).attempts < RECONNECT_MAX_ATTEMPTS => action == (ReconnectAction::Open {
                    backend: b,
                }),
                _ => action == ReconnectAction::GiveUp,
            },
    {
        if self.attempts >= RECONNECT_MAX_ATTEMPTS {
            return ReconnectAction::GiveUp;
        }
        self.attempts = self.attempts + 1;
        match backend {
            Some(b) => ReconnectAction::Open { backend: b },
            None => ReconnectAction::GiveUp,
        }
    }

    /// The attempt failed with `error`.
    pub fn failed(&mut self, error: &DaemonError) -> (action: ReconnectAction)
        requires
            old(self).wf(),
        ensures
            final(self).wf(),
            if retriable(*error) {
                *final(self) == old(self).backed_off() && action == final(self).pending()
            } else {
                *final(self) == *old(self) && action == ReconnectAction::GiveUp
            },
    {
        if let DaemonError::Driver(DriverError::Disconnected) = error {
            let doubled: u64 = self.backoff_ms * 2;
            self.backoff_ms = if doubled <= RECONNECT_MAX_BACKOFF_MS {
                doubled
            } else {
                RECONNECT_MAX_BACKOFF_MS
            };
            self.next()
        } else {
            ReconnectAction::GiveUp
        }
    }
}

/// The state after `n` attempts that all failed because the device was gone.
pub open spec fn after_failures(n: nat) -> Reconnect
    decreases n,
{
    if n == 0 {
        Reconnect::initial()
    } else {
        after_failures((n - 1) as nat).attempted().backed_off()
    }
}

/// The waits are 100 ms, 200 ms, 400 ms and so on, never more than five
/// seconds, and after eight failed attempts the device is given up.
pub proof fn backoff_doubles_up_to_its_limit(n: nat)
    requires
        n <= RECONNECT_MAX_ATTEMPTS,
    ensures
        after_failures(n).attempts == n,
        after_failures(n).pending() == if n < RECONNECT_MAX_ATTEMPTS {
            ReconnectAction::Wait {
                ms: if RECONNECT_INITIAL_BACKOFF_MS * vstd::arithmetic::power2::pow2(n) <= RECONNECT_MAX_BACKOFF_MS {
                    (RECONNECT_INITIAL_BACKOFF_MS * vstd::arithmetic::power2::pow2(n)) as u64
                } else {
                    RECONNECT_MAX_BACKOFF_MS
                },
            }
        } else {
            ReconnectAction::GiveUp
        },
{
    vstd::arithmetic::power2::lemma2_to64();
    reveal_with_fuel(after_failures, 9);
}

/// The waits between attempts: a tenth of a second, twice as long after each
/// failure up to five seconds, and no ninth attempt.
pub proof fn waits_between_attempts(n: nat)
    requires
        n <= 8,
    ensures
        after_failures(n).pending() == if n == 8 {
            ReconnectAction::GiveUp
        } else {
            ReconnectAction::Wait {
                ms: if n == 0 {
                    100
                } else if n == 1 {
                    200
                } else if n == 2 {
                    400
                } else if n == 3 {
                    800
                } else if n == 4 {
                    1600
                } else if n == 5 {
                    3200
                } else {
                    5000
                },
            }
        },
{
    reveal_with_fuel(after_failures, 9);
}

/// A failure doubles the wait up to its limit and takes no attempt; an attempt
/// counts one and leaves the wait. No state allows more than eight attempts.
pub proof fn failures_lengthen_the_wait(r: Reconnect)
    requires
        r.wf(),
    ensures
        r.backed_off().wf(),
        r.backed_off().attempts == r.attempts,
        r.backed_off().backoff_ms == 2 * r.backoff_ms || r.backed_off().backoff_ms == 5000 < 2 * r.backoff_ms,
        r.attempted().backoff_ms == r.backoff_ms,
        r.attempts < 8 ==> r.attempted().attempts == r.attempts + 1,
        r.attempts >= 8 ==> r.attempted() == r,
        r.pending() is GiveUp <==> r.attempts >= 8,
        r.pending() matches ReconnectAction::Wait { ms } ==> ms == r.backoff_ms,
        r.pending() !is Open,
{
}

/// Only the failure that the device is gone is worth another attempt.
pub proof fn only_absence_is_retried(error: DaemonError)
    ensures
        retriable(error) <==> error is Driver && error->Driver_0 is Disconnected,
{
}

} // verus!
