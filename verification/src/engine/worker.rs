//! What a device worker does once an operation has come back from the driver.

use vstd::prelude::*;

use crate::engine::messages::{EngineCommand, WorkerOp};
use crate::engine::{DaemonError, LifecycleEvent};
use crate::hal::DriverError;

verus! {

/// How long a shadowed keymap must stay untouched before it is pushed.
pub const DEBOUNCE_MS: u64 = 500;

/// When a keymap write reaches the device.
#[derive(Clone, Copy, PartialEq, Eq, Structural, Debug)]
pub enum Buffering {
    /// Every write is durable at once.
    Immediate,
    /// The driver collects writes and flushes them itself; it announces each flush.
    Coalesced,
    /// Writes change a shadow keymap, which a commit pushes as a whole.
    Shadowed,
}

impl Buffering {
    /// True when every successful write is announced by the worker.
    pub fn emits_layout_event_per_set(self) -> (per_set: bool)
        ensures
            per_set == (self == Buffering::Immediate),
    {
        match self {
            Buffering::Immediate => true,
            _ => false,
        }
    }
}

/// A driver result as it is answered to the client.
pub fn into_reply<T>(result: Result<T, DriverError>) -> (reply: Result<T, DaemonError>)
    ensures
        match result {
            Ok(value) => reply == Ok::<T, DaemonError>(value),
            Err(e) => reply == Err::<T, DaemonError>(DaemonError::Driver(e)),
        },
{
    match result {
        Ok(value) => Ok(value),
        Err(e) => Err(DaemonError::Driver(e)),
    }
}

/// True when the result retires the worker: the device is gone, or access to it
/// is refused.
pub fn is_fatal_driver_error<T>(result: &Result<T, DaemonError>) -> (fatal: bool)
    ensures
        fatal == (result matches Err(DaemonError::Driver(e)) && e.fatal()),
{
    match result {
        Err(DaemonError::Driver(e)) => e.is_fatal(),
        _ => false,
    }
}

/// What follows an operation.
#[derive(Debug)]
pub struct WorkerStep {
    /// Announced to subscribers.
    pub event: Option<LifecycleEvent>,
    /// Sent to the engine, after which the worker ends.
    pub report: Option<EngineCommand>,
}

/// The bookkeeping of one device worker. Times are in milliseconds on a clock
/// that never runs backwards.
#[derive(Debug)]
pub struct Worker {
    pub device_id: String,
    pub buffering: Buffering,
    /// When the shadow keymap is due to be pushed.
    pub deadline: Option<u64>,
}

/// The operation makes a layout change visible, and it is the worker that announces
/// it. A shadow keymap is announced when it has been pushed.
pub open spec fn announced(buffering: Buffering, op: WorkerOp, pushed: bool) -> bool {
    match op {
        WorkerOp::SetKeycode { .. } => buffering == Buffering::Immediate,
        WorkerOp::Commit => match buffering {
            Buffering::Immediate => true,
            Buffering::Coalesced => false,
            Buffering::Shadowed => pushed,
        },
        _ => false,
    }
}

/// When the shadow keymap is due after the operation `op` at time `now`.
pub open spec fn next_deadline(
    buffering: Buffering,
    deadline: Option<u64>,
    op: WorkerOp,
    succeeded: bool,
    now: u64,
) -> Option<u64> {
    if buffering != Buffering::Shadowed {
        deadline
    } else {
        match op {
            WorkerOp::SetKeycode { .. } => if !succeeded {
                deadline
            } else if now + DEBOUNCE_MS <= u64::MAX {
                Some((now + DEBOUNCE_MS) as u64)
            } else {
                Some(u64::MAX)
            },
            WorkerOp::Commit => None,
            _ => deadline,
        }
    }
}

impl Worker {
    /// The worker of a device that was just attached.
    pub fn new(device_id: String, buffering: Buffering) -> (w: Worker)
        ensures
            w == (Worker { device_id, buffering, deadline: None }),
    {
        Worker { device_id, buffering, deadline: None }
    }

    /// Records that `op` came back from the driver at time `now`, with `failure`
    /// unless it succeeded. An operation that failed is not announced.
    ///
    /// `pushed` says of a commit that it brought a shadow keymap to the device. A
    /// commit that found the keymap unchanged pushes nothing, even if it makes the
    /// lighting durable. For other operations `pushed` is of no account.
    pub fn op_finished(
        &mut self,
        op: &WorkerOp,
        failure: Option<&DriverError>,
        pushed: bool,
        now: u64,
    ) -> (step: WorkerStep)
        ensures
            final(self).device_id == old(self).device_id,
            final(self).buffering == old(self).buffering,
            final(self).deadline == next_deadline(
                old(self).buffering,
                old(self).deadline,
                *op,
                failure is None,
                now,
            ),
            if failure is None && announced(old(self).buffering, *op, pushed) {
                step.event == Some(LifecycleEvent::LayoutUpdated(old(self).device_id))
            } else {
                step.event is None
            },
            match failure {
                Some(e) if e.fatal() => step.report == Some(
                    EngineCommand::DeviceError {
                        device_id: old(self).device_id,
                        error: DaemonError::Driver(*e),
                    },
                ),
                _ => step.report is None,
            },
    {
        let mut step = WorkerStep { event: None, report: None };
        match failure {
            Some(DriverError::Disconnected) => {
                step.report = Some(
                    EngineCommand::DeviceError {
                        device_id: self.device_id.clone(),
                        error: DaemonError::Driver(DriverError::Disconnected),
                    },
                );
            },
            Some(DriverError::PermissionDenied { path }) => {
                step.report = Some(
                    EngineCommand::DeviceError {
                        device_id: self.device_id.clone(),
                        error: DaemonError::Driver(DriverError::PermissionDenied { path: path.clone() }),
                    },
                );
            },
            _ => {},
        }
        let succeeded: bool = failure.is_none();
        match op {
            WorkerOp::SetKeycode { layer: _, row: _, col: _, keycode: _ } => {
                match self.buffering {
                    Buffering::Immediate => {
                        if succeeded {
                            step.event = Some(LifecycleEvent::LayoutUpdated(self.device_id.clone()));
                        }
                    },
                    Buffering::Coalesced => {},
                    Buffering::Shadowed => {
                        if succeeded {
                            self.deadline = Some(now.saturating_add(DEBOUNCE_MS));
                        }
                    },
                }
            },
            WorkerOp::Commit => {
                let announce: bool = match self.buffering {
                    Buffering::Immediate => true,
                    Buffering::Coalesced => false,
                    Buffering::Shadowed => {
                        self.deadline = None;
                        pushed
                    },
                };
                if succeeded && announce {
                    step.event = Some(LifecycleEvent::LayoutUpdated(self.device_id.clone()));
                }
            },
            _ => {},
        }
        step
    }

    /// True when the shadow keymap is to be committed now.
    pub fn is_due(&self, now: u64) -> (due: bool)
        ensures
            due == (self.deadline matches Some(d) && d <= now),
    {
        match self.deadline {
            Some(d) => d <= now,
            None => false,
        }
    }
}

/// A shadow keymap that is written at `first` and again at `second` is not due
/// before the debounce interval has passed since the second write.
pub proof fn a_write_restarts_the_debounce(
    deadline: Option<u64>,
    write: WorkerOp,
    first: u64,
    second: u64,
)
    requires
        write is SetKeycode,
        first <= second,
        second + DEBOUNCE_MS <= u64::MAX,
    ensures
        ({
            let armed = next_deadline(Buffering::Shadowed, deadline, write, true, first);
            next_deadline(Buffering::Shadowed, armed, write, true, second) == Some(
                (second + DEBOUNCE_MS) as u64,
            )
        }),
{
}

/// What a worker announces: where writes are durable at once, every write and
/// every commit; where the driver collects them, nothing; and where they wait for
/// a commit, the commits that pushed something. No other operation is announced.
pub proof fn changes_are_announced_once(op: WorkerOp, pushed: bool)
    ensures
        announced(Buffering::Immediate, op, pushed) <==> op is SetKeycode || op is Commit,
        !announced(Buffering::Coalesced, op, pushed),
        announced(Buffering::Shadowed, op, pushed) <==> op is Commit && pushed,
{
}

/// A shadow keymap is due half a second after the last successful write to it, a
/// commit leaves nothing due, and nothing else moves the deadline; without a
/// shadow keymap nothing does.
pub proof fn the_deadline_follows_the_last_write(
    buffering: Buffering,
    deadline: Option<u64>,
    op: WorkerOp,
    succeeded: bool,
    now: u64,
)
    ensures
        ({
            let next = next_deadline(buffering, deadline, op, succeeded, now);
            &&& buffering != Buffering::Shadowed ==> next == deadline
            &&& buffering == Buffering::Shadowed && op is Commit ==> next is None
            &&& buffering == Buffering::Shadowed && op is SetKeycode && succeeded ==> next == Some(
                if now <= u64::MAX - 500 { (now + 500) as u64 } else { u64::MAX },
            )
            &&& op is SetKeycode && !succeeded ==> next == deadline
            &&& op !is SetKeycode && op !is Commit ==> next == deadline
        }),
{
}

} // verus!
