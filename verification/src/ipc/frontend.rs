//! How requests from the bus are answered.
//!
//! | the engine says                    | the client gets |
//! |------------------------------------|-----------------|
//! | no such device                     | `UnknownObject` |
//! | session or node not permitted      | `AccessDenied`  |
//! | beyond what the device can do      | `NotSupported`  |
//! | anything else                      | `Failed`        |

use vstd::prelude::*;

use crate::engine::DaemonError;
use crate::hal::DriverError;

verus! {

/// The errors of the `org.freedesktop.DBus.Error` family that clients get.
#[derive(Debug)]
pub enum FdoError {
    UnknownObject(String),
    AccessDenied(String),
    NotSupported(String),
    Failed(String),
}

/// What is said when the engine takes no more commands.
pub const NO_ENGINE: &'static str = "engine command channel closed";

/// What is said when the engine drops a request without an answer.
pub const NO_REPLY: &'static str = "engine reply channel dropped";

impl FdoError {
    /// The error's text.
    pub open spec fn detail(&self) -> Seq<char> {
        match self {
            FdoError::UnknownObject(s) => s@,
            FdoError::AccessDenied(s) => s@,
            FdoError::NotSupported(s) => s@,
            FdoError::Failed(s) => s@,
        }
    }

    /// This is how `e` is told to a client.
    pub open spec fn tells(&self, e: DaemonError) -> bool {
        match e {
            DaemonError::DeviceNotFound { device_id } => self is UnknownObject && self.detail()
                == device_id@,
            DaemonError::DeviceUnauthorized { .. } => self is AccessDenied && self.detail() == e.text(),
            DaemonError::Driver(DriverError::PermissionDenied { .. }) => self is AccessDenied
                && self.detail() == e.text(),
            DaemonError::Driver(DriverError::Unsupported { .. }) => self is NotSupported && self.detail()
                == e.text(),
            _ => self is Failed && self.detail() == e.text(),
        }
    }

    /// Puts an error of the engine into terms of the bus.
    pub fn from_daemon_error(e: DaemonError) -> (fdo: FdoError)
        ensures
            fdo.tells(e),
    {
        let text: String = e.to_text();
        match e {
            DaemonError::DeviceNotFound { device_id } => FdoError::UnknownObject(device_id),
            DaemonError::DeviceUnauthorized { .. } => FdoError::AccessDenied(text),
            DaemonError::Driver(DriverError::PermissionDenied { .. }) => FdoError::AccessDenied(text),
            DaemonError::Driver(DriverError::Unsupported { .. }) => FdoError::NotSupported(text),
            _ => FdoError::Failed(text),
        }
    }

    /// The error's name on the bus.
    pub fn name(&self) -> (name: &'static str)
        ensures
            name@ == match self {
                FdoError::UnknownObject(_) => "org.freedesktop.DBus.Error.UnknownObject"@,
                FdoError::AccessDenied(_) => "org.freedesktop.DBus.Error.AccessDenied"@,
                FdoError::NotSupported(_) => "org.freedesktop.DBus.Error.NotSupported"@,
                FdoError::Failed(_) => "org.freedesktop.DBus.Error.Failed"@,
            },
    {
        match self {
            FdoError::UnknownObject(_) => "org.freedesktop.DBus.Error.UnknownObject",
            FdoError::AccessDenied(_) => "org.freedesktop.DBus.Error.AccessDenied",
            FdoError::NotSupported(_) => "org.freedesktop.DBus.Error.NotSupported",
            FdoError::Failed(_) => "org.freedesktop.DBus.Error.Failed",
        }
    }
}

/// How the exchange with the engine over one request went.
#[derive(Debug)]
pub enum Exchange<T> {
    /// The engine takes no more commands.
    ChannelClosed,
    /// The engine took the request and dropped it.
    ReplyDropped,
    Replied(Result<T, DaemonError>),
}

/// The answer to a client.
pub fn conclude<T>(exchange: Exchange<T>) -> (answer: Result<T, FdoError>)
    ensures
        match exchange {
            Exchange::ChannelClosed => answer matches Err(FdoError::Failed(s)) && s@ == NO_ENGINE@,
            Exchange::ReplyDropped => answer matches Err(FdoError::Failed(s)) && s@ == NO_REPLY@,
            Exchange::Replied(Ok(value)) => answer == Ok::<T, FdoError>(value),
            Exchange::Replied(Err(e)) => answer matches Err(fdo) && fdo.tells(e),
        },
{
    match exchange {
        Exchange::ChannelClosed => Err(FdoError::Failed(NO_ENGINE.to_owned())),
        Exchange::ReplyDropped => Err(FdoError::Failed(NO_REPLY.to_owned())),
        Exchange::Replied(reply) => match reply {
            Ok(value) => Ok(value),
            Err(e) => Err(FdoError::from_daemon_error(e)),
        },
    }
}

/// What a client is told: of a device that is not there, its id; of what is not
/// permitted and of what is beyond the device, which of the two it is, and the
/// message; of anything else, that it failed, and the message.
pub proof fn errors_are_told_by_their_kind(fdo: FdoError, e: DaemonError)
    requires
        fdo.tells(e),
    ensures
        fdo is UnknownObject <==> e is DeviceNotFound,
        fdo is AccessDenied <==> e is DeviceUnauthorized || (e is Driver && e->Driver_0 is PermissionDenied),
        fdo is NotSupported <==> e is Driver && e->Driver_0 is Unsupported,
        e matches DaemonError::DeviceNotFound { device_id } ==> fdo->UnknownObject_0@ == device_id@,
        fdo is AccessDenied ==> fdo->AccessDenied_0@ == e.text(),
        fdo is NotSupported ==> fdo->NotSupported_0@ == e.text(),
        fdo is Failed ==> fdo->Failed_0@ == e.text(),
{
}

} // verus!
