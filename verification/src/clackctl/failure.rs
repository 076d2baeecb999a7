//! Failures of the bus in plain words.

use vstd::prelude::*;

use crate::input::same;

verus! {

/// What kind of failure it is.
#[derive(Debug)]
pub enum FailureKind {
    /// The daemon, or the bus in its place, answered with an error.
    Method { name: String, detail: Option<String> },
    /// The daemon does not have the interface.
    InterfaceNotFound,
    Other,
}

/// A failed command.
#[derive(Debug)]
pub struct Failure {
    pub kind: FailureKind,
    /// The failure in its own words.
    pub text: String,
}

/// The error of a request that the device cannot carry out.
pub const NOT_SUPPORTED: &'static str = "org.freedesktop.DBus.Error.NotSupported";

/// The error of a request to an unknown device.
pub const UNKNOWN_OBJECT: &'static str = "org.freedesktop.DBus.Error.UnknownObject";

/// The error of a request that is not permitted.
pub const ACCESS_DENIED: &'static str = "org.freedesktop.DBus.Error.AccessDenied";

/// The error of the bus when no daemon answers to the name.
pub const SERVICE_UNKNOWN: &'static str = "org.freedesktop.DBus.Error.ServiceUnknown";

/// What is said when the daemon does not have the interface.
pub const WRONG_INTERFACE: &'static str = "clackd does not expose the expected interface — version mismatch between clackctl and clackd?";

/// What is said when there is no daemon.
pub const NOT_RUNNING: &'static str = "clackd is not running on the session bus — start it and retry";

/// The text of an optional detail.
pub open spec fn detail_of(detail: Option<String>) -> Seq<char> {
    match detail {
        Some(d) => d@,
        None => "no detail"@,
    }
}

/// How a failure is told to the user.
pub open spec fn friendly(failure: Failure) -> Seq<char> {
    match failure.kind {
        FailureKind::InterfaceNotFound => WRONG_INTERFACE@,
        FailureKind::Other => failure.text@,
        FailureKind::Method { name, detail } => if name@ == NOT_SUPPORTED@ {
            "this keyboard cannot do that: "@ + detail_of(detail)
        } else if name@ == UNKNOWN_OBJECT@ {
            "keyboard not found: "@ + detail_of(detail) + " (see `clackctl list`)"@
        } else if name@ == ACCESS_DENIED@ {
            "access denied: "@ + detail_of(detail) + " (check the udev uaccess rule for /dev/hidraw*)"@
        } else if name@ == SERVICE_UNKNOWN@ {
            NOT_RUNNING@
        } else {
            detail_of(detail) + " ["@ + name@ + "]"@
        },
    }
}

/// Tells a failure to the user.
pub fn friendly_error(failure: &Failure) -> (out: String)
    ensures
        out@ == friendly(*failure),
{
    match &failure.kind {
        FailureKind::InterfaceNotFound => WRONG_INTERFACE.to_owned(),
        FailureKind::Other => failure.text.clone(),
        FailureKind::Method { name, detail } => {
            let detail: String = match detail {
                Some(d) => d.clone(),
                None => "no detail".to_owned(),
            };
            if same(name.as_str(), NOT_SUPPORTED) {
                "this keyboard cannot do that: ".to_owned().concat(detail.as_str())
            } else if same(name.as_str(), UNKNOWN_OBJECT) {
                "keyboard not found: ".to_owned().concat(detail.as_str()).concat(" (see `clackctl list`)")
            } else if same(name.as_str(), ACCESS_DENIED) {
                "access denied: ".to_owned().concat(detail.as_str()).concat(
                    " (check the udev uaccess rule for /dev/hidraw*)",
                )
            } else if same(name.as_str(), SERVICE_UNKNOWN) {
                NOT_RUNNING.to_owned()
            } else {
                detail.concat(" [").concat(name.as_str()).concat("]")
            }
        },
    }
}

/// The note that stands in for a value that could not be read.
pub open spec fn noted(failure: Failure) -> Seq<char> {
    if failure.kind matches FailureKind::Method { name, .. } && name@ == NOT_SUPPORTED@ {
        "not supported by this keyboard"@
    } else {
        "read failed ("@ + failure.text@ + ")"@
    }
}

/// The note that stands in for a value that could not be read.
pub fn unsupported_note(failure: &Failure) -> (out: String)
    ensures
        out@ == noted(*failure),
{
    if let FailureKind::Method { name, .. } = &failure.kind {
        if same(name.as_str(), NOT_SUPPORTED) {
            return "not supported by this keyboard".to_owned();
        }
    }
    "read failed (".to_owned().concat(failure.text.as_str()).concat(")")
}

/// A refusal is told by its kind: what the keyboard cannot do, what was not found,
/// what is not permitted, and that the daemon is not there; any other error of the
/// daemon is told with its name. Other failures are told in their own words.
pub proof fn failures_are_told_by_their_kind(failure: Failure)
    ensures
        failure.kind is Other ==> friendly(failure) == failure.text@,
        failure.kind is InterfaceNotFound ==> friendly(failure) == WRONG_INTERFACE@,
        failure.kind matches FailureKind::Method { name, detail } ==> {
            let d = if detail is Some {
                detail->0@
            } else {
                "no detail"@
            };
            &&& name@ == "org.freedesktop.DBus.Error.NotSupported"@ ==> friendly(failure)
                == "this keyboard cannot do that: "@ + d
            &&& name@ == "org.freedesktop.DBus.Error.UnknownObject"@ ==> friendly(failure) == "keyboard not found: "@ + d
                + " (see `clackctl list`)"@
            &&& name@ == "org.freedesktop.DBus.Error.AccessDenied"@ ==> friendly(failure) == "access denied: "@ + d
                + " (check the udev uaccess rule for /dev/hidraw*)"@
            &&& name@ == "org.freedesktop.DBus.Error.ServiceUnknown"@ ==> friendly(failure) == NOT_RUNNING@
            &&& name@ != NOT_SUPPORTED@ && name@ != UNKNOWN_OBJECT@ && name@ != ACCESS_DENIED@ && name@
                != SERVICE_UNKNOWN@ ==> friendly(failure) == d + " ["@ + name@ + "]"@
        },
{
    refusals_are_told_apart();
}

/// The names of the refusals differ, so each failure has one telling.
pub proof fn refusals_are_told_apart()
    ensures
        NOT_SUPPORTED@ != UNKNOWN_OBJECT@,
        NOT_SUPPORTED@ != ACCESS_DENIED@,
        NOT_SUPPORTED@ != SERVICE_UNKNOWN@,
        UNKNOWN_OBJECT@ != ACCESS_DENIED@,
        UNKNOWN_OBJECT@ != SERVICE_UNKNOWN@,
        ACCESS_DENIED@ != SERVICE_UNKNOWN@,
{
    reveal_strlit("org.freedesktop.DBus.Error.NotSupported");
    reveal_strlit("org.freedesktop.DBus.Error.UnknownObject");
    reveal_strlit("org.freedesktop.DBus.Error.AccessDenied");
    reveal_strlit("org.freedesktop.DBus.Error.ServiceUnknown");
    assert(NOT_SUPPORTED@[27] == 'N' && UNKNOWN_OBJECT@[27] == 'U');
    assert(ACCESS_DENIED@[27] == 'A' && SERVICE_UNKNOWN@[27] == 'S');
}

/// A value that could not be read is noted as not supported exactly where the
/// keyboard cannot do it; any other note quotes the failure.
pub proof fn notes_tell_what_is_missing(failure: Failure)
    ensures
        failure.kind is Method && failure.kind->Method_name@ == "org.freedesktop.DBus.Error.NotSupported"@ ==> noted(
            failure,
        ) == "not supported by this keyboard"@,
        !(failure.kind is Method && failure.kind->Method_name@ == "org.freedesktop.DBus.Error.NotSupported"@) ==> noted(
            failure,
        ) == "read failed ("@ + failure.text@ + ")"@,
{
}

} // verus!
