use clackd::engine::messages::DeviceIdentity;
use clackd::engine::DaemonError;
use clackd::hal::{DriverError, IoError, IoErrorKind};
use clackd::ipc::frontend::{conclude, Exchange, FdoError};
use clackd::ipc::{CLACKD_BUS_NAME, CLACKD_OBJECT_PATH};

#[test]
fn device_not_found_maps_to_unknown_object() {
    let err = DaemonError::DeviceNotFound {
        device_id: "hidraw0".into(),
    };
    let fdo = FdoError::from_daemon_error(err);
    assert!(
        matches!(fdo, FdoError::UnknownObject(ref s) if s == "hidraw0"),
        "expected UnknownObject, got {fdo:?}"
    );
}

#[test]
fn device_unauthorized_maps_to_access_denied() {
    let err = DaemonError::DeviceUnauthorized {
        device_id: "hidraw1".into(),
    };
    let fdo = FdoError::from_daemon_error(err);
    assert!(
        matches!(fdo, FdoError::AccessDenied(_)),
        "expected AccessDenied, got {fdo:?}"
    );
}

#[test]
fn permission_denied_maps_to_access_denied() {
    let err = DaemonError::Driver(DriverError::PermissionDenied {
        path: "/dev/hidraw2".to_owned(),
    });
    let fdo = FdoError::from_daemon_error(err);
    assert!(
        matches!(fdo, FdoError::AccessDenied(_)),
        "expected AccessDenied, got {fdo:?}"
    );
}

#[test]
fn driver_io_maps_to_failed() {
    let err = DaemonError::Driver(DriverError::Io(IoError {
        kind: IoErrorKind::Other,
        message: "test".to_owned(),
    }));
    let fdo = FdoError::from_daemon_error(err);
    assert!(
        matches!(fdo, FdoError::Failed(ref s) if s == "driver error: hidraw I/O error: test"),
        "expected Failed, got {fdo:?}"
    );
}

#[test]
fn driver_disconnected_maps_to_failed() {
    let err = DaemonError::Driver(DriverError::Disconnected);
    let fdo = FdoError::from_daemon_error(err);
    assert!(
        matches!(fdo, FdoError::Failed(_)),
        "expected Failed, got {fdo:?}"
    );
}

#[test]
fn get_keycode_happy_path() {
    let result = conclude(Exchange::Replied(Ok(0x004Cu16)));
    assert_eq!(result.unwrap(), 0x004C);
}

#[test]
fn get_device_identity_happy_path() {
    let result = conclude(Exchange::Replied(Ok(DeviceIdentity {
        vendor_id: 0x1234,
        product_id: 0xabcd,
        product_name: "Test Board".to_owned(),
    })));
    let identity = result.unwrap();
    assert_eq!(identity.vendor_id, 0x1234);
    assert_eq!(identity.product_id, 0xabcd);
    assert_eq!(identity.product_name, "Test Board");
}

#[test]
fn set_keycode_happy_path() {
    let result = conclude(Exchange::Replied(Ok(())));
    assert!(result.is_ok());
}

#[test]
fn get_keycode_engine_closed() {
    let err = conclude::<u16>(Exchange::ChannelClosed).unwrap_err();
    assert!(
        matches!(err, FdoError::Failed(ref msg) if msg.contains("engine command channel closed")),
        "expected Failed(engine command channel closed), got {err:?}"
    );
}

#[test]
fn get_keycode_reply_dropped() {
    let err = conclude::<u16>(Exchange::ReplyDropped).unwrap_err();
    assert!(
        matches!(err, FdoError::Failed(ref msg) if msg.contains("engine reply channel dropped")),
        "expected Failed(engine reply channel dropped), got {err:?}"
    );
}

#[test]
fn unsupported_operations_are_named() {
    let fdo = FdoError::from_daemon_error(DaemonError::Driver(DriverError::Unsupported { op: "macros" }));
    assert!(matches!(fdo, FdoError::NotSupported(ref s) if s == "driver error: operation `macros` is not supported"));
    assert_eq!(fdo.name(), "org.freedesktop.DBus.Error.NotSupported");
    assert_eq!(
        FdoError::from_daemon_error(DaemonError::EngineSend).name(),
        "org.freedesktop.DBus.Error.Failed"
    );
    assert_eq!(CLACKD_OBJECT_PATH, "/io/github/clackd");
    assert_eq!(CLACKD_BUS_NAME, "io.github.clackd");
}
