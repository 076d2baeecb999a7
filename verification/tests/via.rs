use std::collections::HashMap;

use clackd::engine::LifecycleEvent;
use clackd::engine::worker::Buffering;
use clackd::hal::hid::hid_descriptor_has_usage_page;
use clackd::hal::via::{
    check_read, check_written, get_keycode_request, get_keycode_response, get_layer_count_request,
    get_layer_count_response, get_lighting_request, get_lighting_response, get_macro_request, get_macro_response,
    get_value_request, get_value_response, hidraw_report, probe_via_usage_page, set_keycode_request, set_keycode_response, set_lighting_request,
    set_macro_request, set_value_request, FlushStep, KeycodeRead, KeycodeWrite, ViaDriver,
    ID_DYNAMIC_KEYMAP_GET_KEYCODE, ID_DYNAMIC_KEYMAP_GET_LAYER_COUNT, ID_DYNAMIC_KEYMAP_SET_KEYCODE, VIA_USAGE_PAGE,
};
use clackd::hal::DriverError;

/// A minimal HID descriptor that declares Usage Page 0xFF60 (VIA)
/// followed by Usage 0x61 and a Collection(Application).
fn via_descriptor() -> Vec<u8> {
    vec![
        0x06, 0x60, 0xFF, // Usage Page (0xFF60) — 2-byte little-endian
        0x09, 0x61, // Usage (0x61)
        0xA1, 0x01, // Collection (Application)
        0xC0, // End Collection
    ]
}

/// A minimal HID descriptor for a generic mouse (Usage Page 0x01).
fn mouse_descriptor() -> Vec<u8> {
    vec![
        0x05, 0x01, // Usage Page (Generic Desktop) — 1-byte
        0x09, 0x02, // Usage (Mouse)
        0xA1, 0x01, // Collection (Application)
        0xC0, // End Collection
    ]
}

/// A descriptor with multiple usage pages, including VIA.
fn multi_page_descriptor() -> Vec<u8> {
    vec![
        0x05, 0x01, // Usage Page (Generic Desktop)
        0x09, 0x06, // Usage (Keyboard)
        0xA1, 0x01, // Collection (Application)
        0xC0, // End Collection
        0x06, 0x60, 0xFF, // Usage Page (0xFF60) — VIA
        0x09, 0x61, // Usage (0x61)
        0xA1, 0x01, // Collection (Application)
        0xC0, // End Collection
    ]
}

#[test]
fn test_via_descriptor_matches() {
    assert!(hid_descriptor_has_usage_page(&via_descriptor(), VIA_USAGE_PAGE));
}

#[test]
fn test_mouse_descriptor_does_not_match() {
    assert!(!hid_descriptor_has_usage_page(&mouse_descriptor(), VIA_USAGE_PAGE));
}

#[test]
fn test_multi_page_descriptor_matches() {
    assert!(hid_descriptor_has_usage_page(&multi_page_descriptor(), VIA_USAGE_PAGE));
}

#[test]
fn test_empty_descriptor_does_not_match() {
    assert!(!hid_descriptor_has_usage_page(&[], VIA_USAGE_PAGE));
}

#[test]
fn test_truncated_descriptor_does_not_panic() {
    // Prefix says 2-byte data but only 1 byte follows.
    assert!(!hid_descriptor_has_usage_page(&[0x06, 0x60], VIA_USAGE_PAGE));
}

/// A coalescing driver in front of a simulated firmware.
struct Bench {
    driver: ViaDriver,
    storage: HashMap<(u8, u8, u8), u16>,
    reads: Vec<(u8, u8, u8)>,
    writes: Vec<(u8, u8, u8)>,
    layer_count: u8,
    layer_count_calls: usize,
    fail_on_set: Option<(u8, u8, u8)>,
    events: Vec<LifecycleEvent>,
}

impl Bench {
    fn new(interval_ms: u64) -> Self {
        Self {
            driver: ViaDriver::with_coalescing((16, 16), interval_ms, "test-hidraw".to_owned()),
            storage: HashMap::new(),
            reads: Vec::new(),
            writes: Vec::new(),
            layer_count: 4,
            layer_count_calls: 0,
            fail_on_set: None,
            events: Vec::new(),
        }
    }

    /// What the firmware answers. It knows nothing but the request.
    fn firmware(&mut self, request: [u8; 32]) -> Result<[u8; 32], DriverError> {
        let mut response = request;
        let slot = (request[1], request[2], request[3]);
        match request[0] {
            ID_DYNAMIC_KEYMAP_GET_KEYCODE => {
                self.reads.push(slot);
                let keycode = self.storage.get(&slot).copied().unwrap_or(0);
                response[4..6].copy_from_slice(&keycode.to_be_bytes());
            }
            ID_DYNAMIC_KEYMAP_SET_KEYCODE => {
                if self.fail_on_set == Some(slot) {
                    return Err(DriverError::Disconnected);
                }
                self.writes.push(slot);
                self.storage.insert(slot, u16::from_be_bytes([request[4], request[5]]));
            }
            ID_DYNAMIC_KEYMAP_GET_LAYER_COUNT => {
                self.layer_count_calls += 1;
                response[1] = self.layer_count;
            }
            other => panic!("unknown command {other:#04x}"),
        }
        Ok(response)
    }

    fn set(&mut self, layer: u8, row: u8, col: u8, keycode: u16, now: u64) {
        let write = self.driver.set_keycode(layer, row, col, keycode, now);
        assert!(matches!(write, KeycodeWrite::Buffered));
    }

    fn get(&mut self, layer: u8, row: u8, col: u8) -> u16 {
        match self.driver.get_keycode(layer, row, col) {
            KeycodeRead::Buffered { keycode } => keycode,
            KeycodeRead::Ask { request } => {
                let response = self.firmware(request).unwrap();
                get_keycode_response(layer, row, col, &response).unwrap()
            }
        }
    }

    fn get_layer_count(&mut self) -> Result<u8, DriverError> {
        let response = self.firmware(get_layer_count_request())?;
        get_layer_count_response(&response)
    }

    fn run(&mut self, mut step: FlushStep) -> Result<(), DriverError> {
        loop {
            match step {
                FlushStep::Write { entry: e } => {
                    let outcome = self
                        .firmware(set_keycode_request(e.layer, e.row, e.col, e.keycode))
                        .and_then(|r| set_keycode_response(e.layer, e.row, e.col, e.keycode, &r));
                    step = self.driver.wrote(&e, outcome);
                }
                FlushStep::Done { result, event } => {
                    self.events.extend(event);
                    return result;
                }
            }
        }
    }

    fn flush(&mut self) -> Result<(), DriverError> {
        let step = self.driver.flush();
        self.run(step)
    }

    /// Lets the clock reach `now`.
    fn tick(&mut self, now: u64) {
        if let Some(step) = self.driver.tick(now) {
            self.run(step).unwrap();
        }
    }

    /// Ends the session.
    fn close(&mut self) {
        if let Some(step) = self.driver.close() {
            self.run(step).unwrap();
        }
    }
}

#[test]
fn set_is_buffered_no_transport_call() {
    let mut b = Bench::new(60_000);
    b.set(0, 1, 2, 0x004C, 0);
    // Storage must still be empty; only the buffer holds the write.
    assert!(b.storage.is_empty(), "transport should not have been written to");
    assert!(b.writes.is_empty(), "no write should reach the transport before flush");
}

#[test]
fn get_on_buffered_key_returns_from_buffer() {
    let mut b = Bench::new(60_000);
    b.set(0, 1, 2, 0x1234, 0);
    assert_eq!(b.get(0, 1, 2), 0x1234);
    // The transport must NOT have been read — the buffer satisfied the
    // request.
    assert!(b.reads.is_empty());
}

#[test]
fn get_on_unbuffered_key_falls_through_to_transport() {
    let mut b = Bench::new(60_000);
    // Pre-populate the storage to distinguish hardware reads from buffer reads.
    b.storage.insert((3, 4, 5), 0xBEEF);
    assert_eq!(b.get(3, 4, 5), 0xBEEF);
    assert_eq!(b.reads, vec![(3, 4, 5)], "expected exactly one hardware read on buffer miss");
}

#[test]
fn flush_drains_buffer_to_transport() {
    let mut b = Bench::new(60_000);
    b.set(0, 0, 0, 0x01, 0);
    b.set(1, 0, 0, 0x02, 0);
    b.set(2, 0, 0, 0x03, 0);
    b.flush().unwrap();
    assert_eq!(b.storage.get(&(0, 0, 0)), Some(&0x01));
    assert_eq!(b.storage.get(&(1, 0, 0)), Some(&0x02));
    assert_eq!(b.storage.get(&(2, 0, 0)), Some(&0x03));

    // After flush, a subsequent read falls through to hardware
    // (buffer is empty).
    let _ = b.get(0, 0, 0);
    assert_eq!(b.reads, vec![(0, 0, 0)]);
}

#[test]
fn auto_flush_fires_after_deadline() {
    let mut b = Bench::new(50);
    b.set(7, 7, 7, 0xABCD, 1000);
    // Storage is empty immediately after the write.
    assert!(b.storage.is_empty());
    b.tick(1049);
    assert!(b.storage.is_empty());
    // Wait past the deadline.
    b.tick(1150);
    assert_eq!(b.storage.get(&(7, 7, 7)), Some(&0xABCD), "auto-flush should have drained the buffer");
}

#[test]
fn final_flush_on_channel_close() {
    let mut b = Bench::new(60_000);
    b.set(5, 5, 5, 0xDEAD, 0);
    // The deadline is far away; the end of the session alone brings the flush about.
    b.tick(1000);
    assert!(b.storage.is_empty());
    b.close();
    assert_eq!(b.storage.get(&(5, 5, 5)), Some(&0xDEAD), "shutdown flush should have drained the buffer");
}

#[test]
fn deadline_not_extended_by_subsequent_writes() {
    // Bounded worst-case latency: the deadline is set on the first write
    // into an empty buffer and is NOT extended. After flush, subsequent
    // writes start a fresh window.
    let mut b = Bench::new(80);
    b.set(0, 0, 0, 1, 0);
    // Subsequent writes inside the window: the deadline must not slide.
    b.tick(20);
    b.set(0, 0, 1, 2, 20);
    b.tick(40);
    b.set(0, 0, 2, 3, 40);
    assert_eq!(b.driver.deadline(), Some(80));
    b.tick(80);
    assert!(b.writes.contains(&(0, 0, 0)));
    assert!(b.writes.contains(&(0, 0, 1)));
    assert!(b.writes.contains(&(0, 0, 2)));
    b.set(0, 0, 0, 9, 200);
    assert_eq!(b.driver.deadline(), Some(280));
}

#[test]
fn get_layer_count_routes_through_actor() {
    let mut b = Bench::new(60_000);
    assert_eq!(b.get_layer_count().unwrap(), 4);
    assert_eq!(b.layer_count_calls, 1);
    let mut response = get_layer_count_request();
    response[0] = 0;
    assert!(matches!(get_layer_count_response(&response), Err(DriverError::ProtocolViolation { .. })));
}

#[test]
fn flush_lifecycle_event_emission() {
    let mut b = Bench::new(60_000);
    // Several writes. None of them triggers an event yet.
    b.set(0, 0, 0, 0x01, 0);
    b.set(0, 0, 1, 0x02, 0);
    assert!(b.events.is_empty(), "no event should be emitted before flush");
    // Explicit flush
    b.flush().unwrap();
    // Exactly one event
    assert_eq!(b.events.len(), 1, "only one event should be emitted per flush");
    assert!(matches!(&b.events[0], LifecycleEvent::LayoutUpdated(id) if id == "test-hidraw"));
}

#[test]
fn partial_flush_retains_unflushed_entries() {
    let mut b = Bench::new(60_000);
    // Queue three writes
    b.set(0, 0, 0, 0x01, 0);
    b.set(0, 0, 1, 0x02, 0);
    b.set(0, 0, 2, 0x03, 0);
    // Let the transport fail on the middle coordinate
    b.fail_on_set = Some((0, 0, 1));
    let err = b.flush().unwrap_err();
    assert!(matches!(err, DriverError::Disconnected));
    // Now clear the error so we can retry
    b.fail_on_set = None;
    b.flush().unwrap();
    // After the second, successful flush, ALL THREE MUST be in storage.
    assert_eq!(b.storage.get(&(0, 0, 0)), Some(&0x01));
    assert_eq!(b.storage.get(&(0, 0, 1)), Some(&0x02));
    assert_eq!(b.storage.get(&(0, 0, 2)), Some(&0x03));
}

#[test]
fn keycode_frames_echo() {
    let set = set_keycode_request(1, 2, 3, 0xABCD);
    assert_eq!(&set[..6], &[0x05, 1, 2, 3, 0xAB, 0xCD]);
    assert!(set[6..].iter().all(|&b| b == 0));
    assert!(set_keycode_response(1, 2, 3, 0xABCD, &set).is_ok());
    assert!(matches!(
        set_keycode_response(1, 2, 3, 0xABCE, &set),
        Err(DriverError::ProtocolViolation { .. })
    ));
    let mut get = get_keycode_request(1, 2, 3);
    assert_eq!(&get[..4], &[0x04, 1, 2, 3]);
    get[4] = 0xAB;
    get[5] = 0xCD;
    assert_eq!(get_keycode_response(1, 2, 3, &get).unwrap(), 0xABCD);
    assert!(matches!(
        get_keycode_response(1, 2, 4, &get),
        Err(DriverError::ProtocolViolation { .. })
    ));
}

#[test]
fn macro_and_lighting_frames() {
    assert_eq!(&get_macro_request(0x0102, 9)[..4], &[0x0B, 0x01, 0x02, 9]);
    let mut resp = [0u8; 32];
    resp[4] = 0x61;
    resp[5] = 0x62;
    assert_eq!(get_macro_response(2, &resp), vec![0x61, 0x62]);
    let w = set_macro_request(0x0010, &[7, 8]);
    assert_eq!(&w[..6], &[0x0C, 0x00, 0x10, 2, 7, 8]);
    assert_eq!(&get_lighting_request(3)[..2], &[0x07, 3]);
    let l = set_lighting_request(3, &[1, 2]);
    assert_eq!(&l[..4], &[0x08, 3, 1, 2]);
    assert_eq!(get_lighting_response(&l)[..3], [3, 1, 2]);
    assert_eq!(get_lighting_response(&l).len(), 31);
    assert_eq!(&get_value_request(3, 4)[..3], &[0x07, 3, 4]);
    let v = set_value_request(3, 4, &[0xAA, 0xBB]);
    assert_eq!(&v[..5], &[0x08, 3, 4, 0xAA, 0xBB]);
    assert_eq!(get_value_response(&v)[..2], [0xAA, 0xBB]);
    assert_eq!(set_value_request(3, 4, &[1u8; 64])[31], 1);
    let report = hidraw_report(&l);
    assert_eq!(report[0], 0);
    assert_eq!(&report[1..], &l);
}

#[test]
fn short_transfers_are_refused() {
    assert!(check_written(33).is_ok());
    assert!(matches!(check_written(32), Err(DriverError::ProtocolViolation { .. })));
    assert!(check_read(32).is_ok());
    assert!(matches!(check_read(31), Err(DriverError::ProtocolViolation { .. })));
}

#[test]
fn unbuffered_drivers_always_ask_the_device() {
    let mut d = ViaDriver::new((16, 16));
    assert_eq!(d.buffering(), Buffering::Immediate);
    assert_eq!(d.get_matrix_dimensions(), (16, 16));
    assert!(matches!(d.set_keycode(0, 1, 2, 3, 0), KeycodeWrite::Send { .. }));
    assert!(matches!(d.get_keycode(0, 1, 2), KeycodeRead::Ask { .. }));
    assert!(d.deadline().is_none());
    assert!(d.tick(u64::MAX).is_none() && d.close().is_none());
    assert!(matches!(d.flush(), FlushStep::Done { result: Ok(()), event: None }));
}

#[test]
fn coalescing_drivers_answer_from_the_buffer() {
    let mut d = ViaDriver::with_coalescing((5, 15), 250, "hidraw0".to_owned());
    assert_eq!(d.buffering(), Buffering::Coalesced);
    assert!(matches!(d.set_keycode(0, 1, 2, 3, 100), KeycodeWrite::Buffered));
    assert!(matches!(d.get_keycode(0, 1, 2), KeycodeRead::Buffered { keycode: 3 }));
    assert!(matches!(d.get_keycode(0, 1, 3), KeycodeRead::Ask { .. }));
    assert_eq!(d.deadline(), Some(350));
    assert!(d.tick(349).is_none());
    let Some(FlushStep::Write { entry }) = d.tick(350) else { panic!("nothing to write") };
    assert_eq!((entry.layer, entry.row, entry.col, entry.keycode), (0, 1, 2, 3));
    let failed = d.wrote(&entry, Err(DriverError::Disconnected));
    assert!(matches!(failed, FlushStep::Done { result: Err(DriverError::Disconnected), event: None }));
    // No deadline is set any more, but the end of the session still finds the write.
    assert!(d.deadline().is_none() && d.tick(u64::MAX).is_none());
    let Some(FlushStep::Write { entry }) = d.close() else { panic!("nothing to write") };
    let done = d.wrote(&entry, Ok(()));
    assert!(matches!(
        done,
        FlushStep::Done { result: Ok(()), event: Some(LifecycleEvent::LayoutUpdated(id)) } if id == "hidraw0"
    ));
    assert!(d.close().is_none());
    assert!(matches!(d.get_keycode(0, 1, 2), KeycodeRead::Ask { .. }));
    assert!(d.deadline().is_none());
}

#[test]
fn probe_looks_for_the_via_page() {
    assert!(probe_via_usage_page(&via_descriptor()).is_ok());
    assert!(matches!(
        probe_via_usage_page(&mouse_descriptor()),
        Err(DriverError::ProtocolViolation { .. })
    ));
}
