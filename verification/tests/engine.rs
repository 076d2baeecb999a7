use clackd::config::{Backend, DriverTable, UsbId};
use clackd::engine::messages::{DeviceHandle, DeviceSite, Effect, EngineCommand, WorkerOp};
use clackd::engine::reconnect::{Reconnect, ReconnectAction};
use clackd::engine::topology::{DeviceTopology, KeyMatrix};
use clackd::engine::worker::{into_reply, is_fatal_driver_error, Buffering, Worker};
use clackd::engine::{attach_device, DaemonError, DeviceRegistry, LifecycleEvent, SendFailure};
use clackd::hal::{classify_io_error, classify_open_errno, DriverError, IoError, IoErrorKind};
use clackd::sorted::SortedMap;

fn empty_table() -> DriverTable {
    DriverTable { by_vid_pid: SortedMap::new(), via_fallback: None }
}

fn via_table() -> DriverTable {
    let mut by_vid_pid = SortedMap::new();
    by_vid_pid.insert(UsbId { vendor_id: 0x05ac, product_id: 0x024f }, Backend::Gmk67);
    DriverTable {
        by_vid_pid,
        via_fallback: Some(Backend::Via { rows: 16, cols: 16, layers: None }),
    }
}

fn handle() -> DeviceHandle {
    DeviceHandle {
        topology: DeviceTopology { matrix: KeyMatrix { rows: 2, cols: 2 }, layer_count: 1 },
        model: "test_model".to_owned(),
        vendor_id: 0x1234,
        product_id: 0xabcd,
        hidraw_path: "/dev/hidraw0".to_owned(),
    }
}

fn registry_with(id: &str) -> DeviceRegistry {
    let mut registry = DeviceRegistry::new();
    registry.attach_finished(id.to_owned(), Ok(handle()));
    registry
}

fn get_keycode(id: &str, layer: u8, row: u8, col: u8) -> EngineCommand {
    EngineCommand::GetKeycode { device_id: id.to_owned(), layer, row, col }
}

#[test]
fn test_device_not_found() {
    let mut registry = DeviceRegistry::new();
    let effects = registry.handle_command(get_keycode("test1", 0, 0, 0), &empty_table());
    assert_eq!(effects.len(), 1);
    assert!(matches!(&effects[0], Effect::Reject { error: DaemonError::DeviceNotFound { device_id } } if device_id == "test1"));
}

#[test]
fn test_out_of_bounds() {
    let mut registry = registry_with("dev1");
    let effects = registry.handle_command(get_keycode("dev1", 1, 0, 0), &empty_table());
    assert_eq!(effects.len(), 1);
    match &effects[0] {
        Effect::Reject { error: DaemonError::DbusRouting(words) } => {
            assert_eq!(words, "(layer=1, row=0, col=0) out of bounds for device `dev1`");
        }
        other => panic!("expected a routing error, got {other:?}"),
    }
}

#[test]
fn test_duplicate_device_connected() {
    let mut registry = registry_with("dev1");
    registry.handle_command(
        EngineCommand::DeviceConnected {
            device_id: "dev1".to_owned(),
            vendor_id: 0,
            product_id: 0,
            hidraw_path: String::new(),
        },
        &empty_table(),
    );
    assert_eq!(registry.len(), 1);
}

#[test]
fn test_device_disconnected_unregistered() {
    let mut registry = DeviceRegistry::new();
    registry.handle_command(
        EngineCommand::DeviceDisconnected { device_id: "dev1".to_owned() },
        &empty_table(),
    );
    assert!(registry.is_empty());
}

#[test]
fn requests_in_bounds_are_forwarded() {
    let mut registry = registry_with("dev1");
    let effects = registry.handle_command(get_keycode("dev1", 0, 1, 1), &empty_table());
    assert!(matches!(
        &effects[0],
        Effect::Forward { device_id, op: WorkerOp::GetKeycode { layer: 0, row: 1, col: 1 } } if device_id == "dev1"
    ));
    let effects = registry.handle_command(
        EngineCommand::SetLighting {
            device_id: "dev1".to_owned(),
            channel: 3,
            value_id: 1,
            data: vec![9],
        },
        &empty_table(),
    );
    assert!(matches!(
        &effects[0],
        Effect::Forward { op: WorkerOp::SetLighting { channel: 3, value_id: 1, data }, .. } if data == &vec![9]
    ));
}

#[test]
fn devices_are_listed_and_described() {
    let mut registry = registry_with("hidraw2");
    registry.attach_finished("hidraw1".to_owned(), Ok(handle()));
    let effects = registry.handle_command(EngineCommand::ListDevices, &empty_table());
    assert!(matches!(&effects[0], Effect::AnswerDevices { ids } if ids == &vec!["hidraw1", "hidraw2"]));
    let effects =
        registry.handle_command(EngineCommand::GetDeviceInfo { device_id: "hidraw1".to_owned() }, &empty_table());
    match &effects[0] {
        Effect::AnswerInfo { info } => {
            assert_eq!((info.rows, info.cols, info.layer_count), (2, 2, 1));
            assert_eq!(info.model, "test_model");
        }
        other => panic!("expected an answer, got {other:?}"),
    }
    let effects =
        registry.handle_command(EngineCommand::GetDeviceIdentity { device_id: "hidraw1".to_owned() }, &empty_table());
    match &effects[0] {
        Effect::AnswerIdentity { identity } => {
            assert_eq!((identity.vendor_id, identity.product_id), (0x1234, 0xabcd));
        }
        other => panic!("expected an answer, got {other:?}"),
    }
}

#[test]
fn new_nodes_are_opened_with_their_backend() {
    let mut registry = DeviceRegistry::new();
    let connect = |vid, pid| EngineCommand::DeviceConnected {
        device_id: "hidraw0".to_owned(),
        vendor_id: vid,
        product_id: pid,
        hidraw_path: "/dev/hidraw0".to_owned(),
    };
    let effects = registry.handle_command(connect(0x05ac, 0x024f), &via_table());
    assert!(effects.iter().any(|e| matches!(e, Effect::Open { backend: Backend::Gmk67, .. })));
    let effects = registry.handle_command(connect(1, 2), &via_table());
    assert!(effects
        .iter()
        .any(|e| matches!(e, Effect::Open { backend: Backend::Via { rows: 16, cols: 16, layers: None }, .. })));
    let effects = registry.handle_command(connect(1, 2), &empty_table());
    assert!(!effects.iter().any(|e| matches!(e, Effect::Open { .. })));
}

#[test]
fn attached_and_evicted_devices_are_announced() {
    let mut registry = DeviceRegistry::new();
    let effects = registry.attach_finished("hidraw0".to_owned(), Ok(handle()));
    assert!(effects
        .iter()
        .any(|e| matches!(e, Effect::Emit { event: LifecycleEvent::DeviceAdded(id) } if id == "hidraw0")));
    let effects = registry.handle_command(
        EngineCommand::DeviceError {
            device_id: "hidraw0".to_owned(),
            error: DaemonError::Driver(DriverError::Disconnected),
        },
        &empty_table(),
    );
    assert!(registry.is_empty());
    assert!(effects
        .iter()
        .any(|e| matches!(e, Effect::Emit { event: LifecycleEvent::DeviceRemoved(id) } if id == "hidraw0")));
    assert!(effects.iter().any(|e| matches!(e, Effect::StartReconnect { .. })));
}

#[test]
fn a_dead_worker_is_evicted() {
    let mut registry = registry_with("hidraw0");
    let full = registry.forward_failed(&"hidraw0".to_owned(), SendFailure::Full);
    assert!(full.iter().any(|e| matches!(e, Effect::Reject { .. })));
    assert_eq!(registry.len(), 1);
    let closed = registry.forward_failed(&"hidraw0".to_owned(), SendFailure::Closed);
    assert!(closed
        .iter()
        .any(|e| matches!(e, Effect::Reject { error: DaemonError::DeviceNotFound { .. } })));
    assert!(closed
        .iter()
        .any(|e| matches!(e, Effect::Emit { event: LifecycleEvent::DeviceRemoved(_) })));
    assert!(registry.is_empty());
}

#[test]
fn shutdown_empties_the_registry() {
    let mut registry = registry_with("hidraw0");
    let effects = registry.handle_command(EngineCommand::Shutdown, &empty_table());
    assert!(effects.iter().any(|e| matches!(e, Effect::Stop)));
    assert!(registry.is_empty());
}

#[test]
fn topology_bounds() {
    let t = DeviceTopology { matrix: KeyMatrix { rows: 5, cols: 15 }, layer_count: 2 };
    assert!(t.contains(1, 4, 14));
    assert!(!t.contains(2, 4, 14));
    assert!(!t.contains(1, 5, 14));
    assert!(!t.contains(1, 4, 15));
    assert!(t.matrix.contains(0, 0));
}

#[test]
fn attaching_reports_the_first_error() {
    let site = DeviceSite {
        device_id: "hidraw0".to_owned(),
        vendor_id: 1,
        product_id: 2,
        hidraw_path: "/dev/hidraw0".to_owned(),
    };
    let ok = attach_device(Ok((5, 15)), Ok(4), "m".to_owned(), &site).unwrap();
    assert_eq!(ok.topology.matrix, KeyMatrix { rows: 5, cols: 15 });
    assert_eq!(ok.topology.layer_count, 4);
    assert!(matches!(
        attach_device(Err(DriverError::Disconnected), Ok(4), "m".to_owned(), &site),
        Err(DaemonError::Driver(DriverError::Disconnected))
    ));
    assert!(matches!(
        attach_device(Ok((5, 15)), Err(DriverError::Unsupported { op: "x" }), "m".to_owned(), &site),
        Err(DaemonError::Driver(DriverError::Unsupported { .. }))
    ));
}

#[test]
fn backoff_doubles_until_the_device_is_given_up() {
    let mut r = Reconnect::new();
    let gone = DaemonError::Driver(DriverError::Disconnected);
    let mut waits = Vec::new();
    let mut action = r.next();
    while let ReconnectAction::Wait { ms } = action {
        waits.push(ms);
        let backend = Backend::Gmk67;
        assert_eq!(r.waited(Some(backend)), ReconnectAction::Open { backend });
        action = r.failed(&gone);
    }
    assert_eq!(action, ReconnectAction::GiveUp);
    assert_eq!(waits, vec![100, 200, 400, 800, 1600, 3200, 5000, 5000]);
}

#[test]
fn other_failures_end_the_reconnection() {
    let mut r = Reconnect::new();
    r.waited(Some(Backend::Gmk67));
    let denied = DaemonError::Driver(DriverError::PermissionDenied { path: String::new() });
    assert_eq!(r.failed(&denied), ReconnectAction::GiveUp);
    let mut r = Reconnect::new();
    assert_eq!(r.waited(None), ReconnectAction::GiveUp);
}

#[test]
fn workers_announce_and_report() {
    let set = WorkerOp::SetKeycode { layer: 0, row: 0, col: 0, keycode: 4 };
    let mut w = Worker::new("hidraw0".to_owned(), Buffering::Immediate);
    let step = w.op_finished(&set, None, false, 0);
    assert!(matches!(step.event, Some(LifecycleEvent::LayoutUpdated(_))));
    assert!(step.report.is_none());
    let step = w.op_finished(&set, Some(&DriverError::Disconnected), false, 0);
    assert!(step.event.is_none());
    assert!(matches!(
        step.report,
        Some(EngineCommand::DeviceError { error: DaemonError::Driver(DriverError::Disconnected), .. })
    ));
    let step = w.op_finished(&set, Some(&DriverError::ProtocolViolation { reason: "x" }), false, 0);
    assert!(step.report.is_none());
}

#[test]
fn shadowed_writes_are_debounced() {
    let set = WorkerOp::SetKeycode { layer: 0, row: 0, col: 0, keycode: 4 };
    let mut w = Worker::new("hidraw0".to_owned(), Buffering::Shadowed);
    assert!(!w.is_due(0));
    let step = w.op_finished(&set, None, false, 1000);
    assert!(step.event.is_none());
    assert_eq!(w.deadline, Some(1500));
    w.op_finished(&set, None, false, 1400);
    assert!(!w.is_due(1500));
    assert!(w.is_due(1900));
    let step = w.op_finished(&WorkerOp::Commit, None, true, 1900);
    assert!(matches!(step.event, Some(LifecycleEvent::LayoutUpdated(_))));
    assert!(!w.is_due(5000));
    assert!(!Buffering::Shadowed.emits_layout_event_per_set());
    assert!(!Buffering::Coalesced.emits_layout_event_per_set());
    assert!(Buffering::Immediate.emits_layout_event_per_set());
}

#[test]
fn commits_that_push_nothing_are_not_announced() {
    let set = WorkerOp::SetKeycode { layer: 0, row: 0, col: 0, keycode: 4 };
    let mut w = Worker::new("hidraw0".to_owned(), Buffering::Shadowed);
    let step = w.op_finished(&WorkerOp::Commit, None, false, 10);
    assert!(step.event.is_none() && step.report.is_none());
    w.op_finished(&set, None, false, 1000);
    let step = w.op_finished(&WorkerOp::Commit, None, false, 1100);
    assert!(step.event.is_none() && step.report.is_none());
    assert_eq!(w.deadline, None);
    // A failed commit is not announced, and reports only what ends the session.
    w.op_finished(&set, None, false, 2000);
    let step = w.op_finished(&WorkerOp::Commit, Some(&DriverError::Unsupported { op: "x" }), true, 2500);
    assert!(step.event.is_none() && step.report.is_none());
    assert_eq!(w.deadline, None);
    // Retried without a deadline, it is announced once it has pushed.
    let step = w.op_finished(&WorkerOp::Commit, None, true, 2600);
    assert!(matches!(step.event, Some(LifecycleEvent::LayoutUpdated(id)) if id == "hidraw0"));
    // A driver that flushes its own buffer announces for itself.
    let mut w = Worker::new("hidraw0".to_owned(), Buffering::Coalesced);
    assert!(w.op_finished(&WorkerOp::Commit, None, false, 0).event.is_none());
    let mut w = Worker::new("hidraw0".to_owned(), Buffering::Immediate);
    assert!(w.op_finished(&WorkerOp::Commit, None, false, 0).event.is_some());
}

#[test]
fn driver_failures_become_daemon_failures() {
    assert!(matches!(
        into_reply::<u16>(Err(DriverError::Disconnected)),
        Err(DaemonError::Driver(DriverError::Disconnected))
    ));
    assert_eq!(into_reply(Ok(7u16)).unwrap(), 7);
    assert!(is_fatal_driver_error::<u16>(&Err(DaemonError::Driver(DriverError::Disconnected))));
    assert!(!is_fatal_driver_error::<u16>(&Ok(1)));
    assert!(!is_fatal_driver_error::<u16>(&Err(DaemonError::EngineSend)));
}

#[test]
fn errors_read_as_sentences() {
    let cases = [
        (
            DriverError::Io(IoError { kind: IoErrorKind::Other, message: "boom".to_owned() }),
            "hidraw I/O error: boom",
        ),
        (
            DriverError::Timeout { device: "hidraw0".to_owned(), op: "get_keycode" },
            "device `hidraw0` timed out during `get_keycode`",
        ),
        (
            DriverError::PermissionDenied { path: "/dev/\"hidraw\"".to_owned() },
            "permission denied for hidraw node \"/dev/\\\"hidraw\\\"\"",
        ),
        (DriverError::ProtocolViolation { reason: "r" }, "hidraw protocol violation: r"),
        (DriverError::Disconnected, "device disconnected"),
        (
            DriverError::VendorCompile { vendor: "logitech", detail: "d".to_owned() },
            "vendor `logitech` blob compile failed: d",
        ),
        (DriverError::Unsupported { op: "o" }, "operation `o` is not supported"),
    ];
    for (error, text) in cases {
        assert_eq!(error.to_text(), text);
        assert_eq!(DaemonError::Driver(error).to_text(), format!("driver error: {text}"));
    }
    assert_eq!(
        DaemonError::DeviceNotFound { device_id: "x".to_owned() }.to_text(),
        "no device registered with id `x`"
    );
    assert_eq!(
        DaemonError::DeviceTaskPanicked { device_id: "x".to_owned() }.to_text(),
        "worker task for device `x` panicked"
    );
}

#[test]
fn system_errors_are_classified() {
    assert!(matches!(
        classify_open_errno(13, "/dev/hidraw0", String::new()),
        DriverError::PermissionDenied { path } if path == "/dev/hidraw0"
    ));
    assert!(matches!(classify_open_errno(19, "", String::new()), DriverError::Disconnected));
    assert!(matches!(classify_open_errno(5, "", "eio".to_owned()), DriverError::Io(e) if e.message == "eio"));
    let io = |kind| IoError { kind, message: "m".to_owned() };
    assert!(matches!(classify_io_error(io(IoErrorKind::BrokenPipe)), DriverError::Disconnected));
    assert!(matches!(classify_io_error(io(IoErrorKind::NotFound)), DriverError::Disconnected));
    assert!(matches!(classify_io_error(io(IoErrorKind::PermissionDenied)), DriverError::PermissionDenied { .. }));
    assert!(matches!(classify_io_error(io(IoErrorKind::Other)), DriverError::Io(_)));
}
