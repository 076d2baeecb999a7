//! Hardware layer: what a keyboard driver reports when an exchange fails.
//!
//! A driver never performs I/O itself. It hands out the frames to exchange and
//! is told how the exchange went; the errors below are what the transport or
//! the driver's own checks make of a failed exchange.

use vstd::prelude::*;

use crate::text::debug_text;

pub mod epomaker;
pub mod frame;
pub mod hid;
pub mod keymap;
pub mod legacy;
pub mod via;

verus! {

/// The kinds of I/O failure that drivers tell apart.
#[derive(Clone, Copy, PartialEq, Eq, Structural, Debug)]
pub enum IoErrorKind {
    PermissionDenied,
    NotFound,
    BrokenPipe,
    Other,
}

/// A failed system call: its kind, and the system's description of it.
#[derive(Debug)]
pub struct IoError {
    pub kind: IoErrorKind,
    pub message: String,
}

/// Errors raised by keyboard drivers.
///
/// [`DriverError::Disconnected`] and [`DriverError::PermissionDenied`] retire the
/// device worker; the others are answers to the one request that met them.
#[derive(Debug)]
pub enum DriverError {
    /// A system call on the hidraw node failed.
    Io(IoError),
    /// The device did not complete an operation in time.
    Timeout { device: String, op: &'static str },
    /// Access to the hidraw node is refused.
    PermissionDenied { path: String },
    /// The device sent a frame that does not follow its protocol.
    ProtocolViolation { reason: &'static str },
    /// The hidraw node has gone away.
    Disconnected,
    /// The shadow keymap has no equivalent in the vendor's format.
    VendorCompile { vendor: &'static str, detail: String },
    /// The device or the driver has no such operation.
    Unsupported { op: &'static str },
}

impl DriverError {
    /// The message shown for the error.
    pub open spec fn text(&self) -> Seq<char> {
        match self {
            DriverError::Io(e) => "hidraw I/O error: "@ + e.message@,
            DriverError::Timeout { device, op } => "device `"@ + device@ + "` timed out during `"@ + op@
                + "`"@,
            DriverError::PermissionDenied { path } => "permission denied for hidraw node "@
                + crate::text::debug_form(path@),
            DriverError::ProtocolViolation { reason } => "hidraw protocol violation: "@ + reason@,
            DriverError::Disconnected => "device disconnected"@,
            DriverError::VendorCompile { vendor, detail } => "vendor `"@ + vendor@
                + "` blob compile failed: "@ + detail@,
            DriverError::Unsupported { op } => "operation `"@ + op@ + "` is not supported"@,
        }
    }

    /// The message shown for the error.
    pub fn to_text(&self) -> (out: String)
        ensures
            out@ == self.text(),
    {
        match self {
            DriverError::Io(e) => "hidraw I/O error: ".to_owned().concat(e.message.as_str()),
            DriverError::Timeout { device, op } => "device `".to_owned().concat(device.as_str()).concat(
                "` timed out during `",
            ).concat(op).concat("`"),
            DriverError::PermissionDenied { path } => "permission denied for hidraw node ".to_owned().concat(
                debug_text(path.as_str()).as_str(),
            ),
            DriverError::ProtocolViolation { reason } => "hidraw protocol violation: ".to_owned().concat(
                reason,
            ),
            DriverError::Disconnected => "device disconnected".to_owned(),
            DriverError::VendorCompile { vendor, detail } => "vendor `".to_owned().concat(vendor).concat(
                "` blob compile failed: ",
            ).concat(detail.as_str()),
            DriverError::Unsupported { op } => "operation `".to_owned().concat(op).concat(
                "` is not supported",
            ),
        }
    }

    /// The error ends the device session: the node is gone, or access to it is refused.
    pub open spec fn fatal(&self) -> bool {
        self is Disconnected || self is PermissionDenied
    }

    /// True when the error ends the device session.
    pub fn is_fatal(&self) -> (fatal: bool)
        ensures
            fatal == self.fatal(),
    {
        match self {
            DriverError::Disconnected => true,
            DriverError::PermissionDenied { path: _ } => true,
            _ => false,
        }
    }
}

/// Linux error numbers that `open(2)` on a device node is classified by.
pub const EPERM: i32 = 1;

pub const ENOENT: i32 = 2;

pub const EACCES: i32 = 13;

pub const ENODEV: i32 = 19;

/// Classifies the error number of a failed `open(2)` of the node at `path`.
///
/// `message` is the system's description of `errno`.
pub fn classify_open_errno(errno: i32, path: &str, message: String) -> (e: DriverError)
    ensures
        errno == EACCES || errno == EPERM ==> (e matches DriverError::PermissionDenied { path: p } && p@
            == path@),
        errno == ENODEV || errno == ENOENT ==> e == DriverError::Disconnected,
        errno != EACCES && errno != EPERM && errno != ENODEV && errno != ENOENT ==> e
            == DriverError::Io(IoError { kind: IoErrorKind::Other, message: message }),
{
    if errno == EACCES || errno == EPERM {
        DriverError::PermissionDenied { path: path.to_owned() }
    } else if errno == ENODEV || errno == ENOENT {
        DriverError::Disconnected
    } else {
        DriverError::Io(IoError { kind: IoErrorKind::Other, message: message })
    }
}

/// Classifies a failed `read(2)`, `write(2)` or `ioctl(2)` on an open node.
pub fn classify_io_error(e: IoError) -> (out: DriverError)
    ensures
        match e.kind {
            IoErrorKind::PermissionDenied => out matches DriverError::PermissionDenied { path } && path@
                == Seq::<char>::empty(),
            IoErrorKind::NotFound | IoErrorKind::BrokenPipe => out == DriverError::Disconnected,
            IoErrorKind::Other => out == DriverError::Io(e),
        },
{
    match e.kind {
        IoErrorKind::PermissionDenied => DriverError::PermissionDenied { path: String::new() },
        IoErrorKind::NotFound => DriverError::Disconnected,
        IoErrorKind::BrokenPipe => DriverError::Disconnected,
        IoErrorKind::Other => DriverError::Io(e),
    }
}

/// Each error is told in its own words: what was being done, to what, and why it
/// failed.
pub proof fn errors_are_told_in_words(e: DriverError)
    ensures
        e matches DriverError::Io(io) ==> e.text() == "hidraw I/O error: "@ + io.message@,
        e matches DriverError::Timeout { device, op } ==> e.text() == "device `"@ + device@ + "` timed out during `"@
            + op@ + "`"@,
        e matches DriverError::PermissionDenied { path } ==> e.text() == "permission denied for hidraw node "@
            + crate::text::debug_form(path@),
        e matches DriverError::ProtocolViolation { reason } ==> e.text() == "hidraw protocol violation: "@ + reason@,
        e is Disconnected ==> e.text() == "device disconnected"@,
        e matches DriverError::VendorCompile { vendor, detail } ==> e.text() == "vendor `"@ + vendor@
            + "` blob compile failed: "@ + detail@,
        e matches DriverError::Unsupported { op } ==> e.text() == "operation `"@ + op@ + "` is not supported"@,
{
}

/// A device session ends when the node is gone or access to it is refused, and
/// goes on after any other error.
pub proof fn sessions_survive_other_errors(e: DriverError)
    ensures
        e is Disconnected || e is PermissionDenied ==> e.fatal(),
        e is Io || e is Timeout || e is ProtocolViolation || e is VendorCompile || e is Unsupported ==> !e.fatal(),
{
}

/// The error numbers that are told apart.
pub proof fn error_numbers()
    ensures
        EPERM == 1,
        ENOENT == 2,
        EACCES == 13,
        ENODEV == 19,
{
}

/// A node that may not be opened is refused with its path, a node that is not there
/// counts as disconnected, and any other failure is kept with its message.
pub proof fn open_failures_are_told_apart(errno: i32, path: &str, message: String, e: DriverError)
    requires
        call_ensures(classify_open_errno, (errno, path, message), e),
    ensures
        e is PermissionDenied <==> errno == 1 || errno == 13,
        e is Disconnected <==> errno == 2 || errno == 19,
        e is Io <==> errno != 1 && errno != 13 && errno != 2 && errno != 19,
        e matches DriverError::PermissionDenied { path: p } ==> p@ == path@,
        e matches DriverError::Io(io) ==> io.message == message,
{
}

} // verus!
