use clackd::config::{build_driver_table, coalesce_interval, select_backend, Backend, DeviceConfig};
use clackd::engine::messages::EngineCommand;
use clackd::hotplug::{event_to_command, parse_usb_id, DeviceNode, NodeEvent};

fn entry(vid: u16, pid: u16, driver: Option<&str>, experimental: bool) -> DeviceConfig {
    DeviceConfig {
        vid,
        pid,
        rows: 5,
        cols: 15,
        layer_count_override: None,
        driver: driver.map(str::to_owned),
        experimental,
    }
}

const VIA: Backend = Backend::Via { rows: 5, cols: 15, layers: None };

#[test]
fn entries_select_their_backend() {
    assert_eq!(select_backend(&entry(1, 2, None, false)), VIA);
    assert_eq!(select_backend(&entry(1, 2, Some("via"), false)), VIA);
    assert_eq!(select_backend(&entry(1, 2, Some("gmk67"), false)), Backend::Gmk67);
    assert_eq!(select_backend(&entry(1, 2, Some("epomaker"), false)), Backend::Gmk67);
    assert_eq!(select_backend(&entry(1, 2, Some("razer"), false)), VIA);
    assert_eq!(select_backend(&entry(1, 2, Some("logitech"), false)), VIA);
    assert_eq!(select_backend(&entry(1, 2, Some("logitech"), true)), Backend::Logitech);
}

#[test]
fn backends_know_their_boards() {
    assert_eq!(VIA.matrix_dimensions(), (5, 15));
    assert_eq!(VIA.layer_count(4), 4);
    let fixed = Backend::Via { rows: 5, cols: 15, layers: Some(2) };
    assert_eq!(fixed.layer_count(4), 2);
    assert_eq!(Backend::Gmk67.matrix_dimensions(), (5, 15));
    assert_eq!(Backend::Gmk67.layer_count(9), 2);
    assert_eq!(Backend::Logitech.matrix_dimensions(), (1, 5));
    assert_eq!(Backend::Logitech.layer_count(9), 3);
}

#[test]
fn later_entries_win_and_others_fall_back() {
    let table = build_driver_table(&[
        entry(1, 2, None, false),
        entry(3, 4, None, false),
        entry(1, 2, Some("gmk67"), false),
    ]);
    assert_eq!(table.select(1, 2), Some(Backend::Gmk67));
    assert_eq!(table.select(3, 4), Some(VIA));
    assert_eq!(table.select(5, 6), Some(Backend::Via { rows: 16, cols: 16, layers: None }));
    assert_eq!(
        build_driver_table(&[]).select(1, 2),
        Some(Backend::Via { rows: 16, cols: 16, layers: None })
    );
}

#[test]
fn coalescing_is_off_unless_asked_for() {
    assert_eq!(coalesce_interval(None), None);
    assert_eq!(coalesce_interval(Some("")), None);
    assert_eq!(coalesce_interval(Some("0")), None);
    assert_eq!(coalesce_interval(Some("fast")), None);
    assert_eq!(coalesce_interval(Some("-5")), None);
    assert_eq!(coalesce_interval(Some(" 250\n")), Some(250));
    assert_eq!(coalesce_interval(Some("18446744073709551615")), Some(u64::MAX));
    assert_eq!(coalesce_interval(Some("18446744073709551616")), None);
}

fn node() -> DeviceNode {
    DeviceNode {
        sysname: "hidraw0".to_owned(),
        devnode: Some("/dev/hidraw0".to_owned()),
        id_vendor: Some("05ac\n".to_owned()),
        id_product: Some("024F".to_owned()),
    }
}

#[test]
fn events_become_commands() {
    match event_to_command(NodeEvent::Add, node()) {
        Some(EngineCommand::DeviceConnected { device_id, vendor_id, product_id, hidraw_path }) => {
            assert_eq!(device_id, "hidraw0");
            assert_eq!((vendor_id, product_id), (0x05ac, 0x024f));
            assert_eq!(hidraw_path, "/dev/hidraw0");
        }
        other => panic!("expected an announcement, got {other:?}"),
    }
    assert!(matches!(
        event_to_command(NodeEvent::Remove, node()),
        Some(EngineCommand::DeviceDisconnected { device_id }) if device_id == "hidraw0"
    ));
    assert!(event_to_command(NodeEvent::Other, node()).is_none());
}

#[test]
fn incomplete_nodes_are_passed_over() {
    assert!(event_to_command(NodeEvent::Add, DeviceNode { devnode: None, ..node() }).is_none());
    assert!(event_to_command(NodeEvent::Add, DeviceNode { id_vendor: None, ..node() }).is_none());
    let bad = DeviceNode { id_product: Some("xyz".to_owned()), ..node() };
    assert!(event_to_command(NodeEvent::Add, bad).is_none());
    assert_eq!(parse_usb_id("046d"), Some(0x046d));
    assert_eq!(parse_usb_id("1046d"), None);
    assert_eq!(parse_usb_id(""), None);
}
