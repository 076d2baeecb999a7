use clackd::engine::worker::Buffering;
use clackd::hal::epomaker::{
    descriptor_has_feature_report, encode_remap_write, encode_select, probe_vendor_feature_interface, EpomakerDriver,
    Lighting, BRIGHTNESS_MAX, BRIGHTNESS_MIN, FOOTER_MAGIC, LIGHT_MARKER_LIT, LIGHT_MARKER_OFF, LIGHT_OFF_B,
    LIGHT_OFF_BRIGHTNESS, LIGHT_OFF_FOOTER, LIGHT_OFF_G, LIGHT_OFF_MARKER, LIGHT_OFF_MODE, LIGHT_OFF_R, MODE_LED_OFF,
    MODE_STATIC, REMAP_MARKER, REMAP_SELECT_OFFSET, REMAP_WRITE_OFFSET,
};
use clackd::hal::DriverError;

fn driver() -> EpomakerDriver {
    EpomakerDriver::new((5, 15), 1)
}

/// Sends a commit's frames to `sent`, or fails at the first one.
fn commit(d: &mut EpomakerDriver, sent: &mut Vec<[u8; 64]>, failing: bool) -> Result<(), DriverError> {
    let frames = d.begin_commit();
    let outcome = if failing && !frames.is_empty() {
        Err(DriverError::Disconnected)
    } else {
        sent.extend(frames);
        Ok(())
    };
    d.finish_commit(outcome)
}

#[test]
fn epomaker_lighting_static_red_layout() {
    let f = Lighting { mode: MODE_STATIC, r: 0xFF, g: 0, b: 0, brightness: 0x10, rainbow: false }.encode();
    assert_eq!(f[LIGHT_OFF_MODE], 0x01);
    assert_eq!(f[LIGHT_OFF_R], 0xFF);
    assert_eq!(f[LIGHT_OFF_G], 0x00);
    assert_eq!(f[LIGHT_OFF_B], 0x00);
    assert_eq!(f[LIGHT_OFF_BRIGHTNESS], 0x10);
    assert_eq!(f[LIGHT_OFF_MARKER], LIGHT_MARKER_LIT);
    assert_eq!(&f[LIGHT_OFF_FOOTER..LIGHT_OFF_FOOTER + 2], &FOOTER_MAGIC);
}

#[test]
fn lighting_off_uses_off_marker() {
    let f = Lighting { mode: MODE_LED_OFF, r: 0, g: 0, b: 0, brightness: 1, rainbow: false }.encode();
    assert_eq!(f[LIGHT_OFF_MARKER], LIGHT_MARKER_OFF);
}

#[test]
fn brightness_is_clamped() {
    let f = Lighting { mode: MODE_STATIC, r: 1, g: 2, b: 3, brightness: 0xFF, rainbow: false }.encode();
    assert_eq!(f[LIGHT_OFF_BRIGHTNESS], BRIGHTNESS_MAX);
    let f0 = Lighting { brightness: 0x00, ..Lighting::default() }.encode();
    assert_eq!(f0[LIGHT_OFF_BRIGHTNESS], BRIGHTNESS_MIN);
}

#[test]
fn remap_write_is_little_endian() {
    let f = encode_remap_write(0x0004); // KC_A
    assert_eq!(f[REMAP_WRITE_OFFSET], REMAP_MARKER);
    assert_eq!(f[REMAP_WRITE_OFFSET + 2], 0x04);
    assert_eq!(f[REMAP_WRITE_OFFSET + 3], 0x00);
}

#[test]
fn select_carries_scancode() {
    let f = encode_select(0x29); // Esc
    assert_eq!(f[REMAP_SELECT_OFFSET], REMAP_MARKER);
    assert_eq!(f[REMAP_SELECT_OFFSET + 2], 0x29);
}

#[test]
fn set_lighting_sends_one_frame() {
    let mut d = driver();
    let (lighting, frame) = d.set_lighting(&[MODE_STATIC, 0x00, 0xFF, 0x00, 0x08, 0]).unwrap();
    assert_eq!(frame[LIGHT_OFF_G], 0xFF);
    assert_eq!(frame[LIGHT_OFF_BRIGHTNESS], 0x08);
    d.lighting_sent(lighting);
    // get_lighting reflects last set
    assert_eq!(d.get_lighting()[2], 0xFF);
}

#[test]
fn epomaker_out_of_range_mode_rejected() {
    let d = driver();
    let err = d.set_lighting(&[0x14, 0, 0, 0]).unwrap_err();
    assert!(matches!(err, DriverError::ProtocolViolation { .. }));
}

#[test]
fn epomaker_set_keycode_is_buffered_until_commit() {
    let mut d = driver();
    let mut sent = Vec::new();
    d.set_keycode(0, 0, 0x29, 0x0004); // row0,col=scancode Esc -> A
    assert!(sent.is_empty(), "writes must not hit the wire before commit");
    assert_eq!(d.get_keycode(0, 0, 0x29), 0x0004);

    commit(&mut d, &mut sent, false).unwrap();
    assert_eq!(sent.len(), 2, "expected select + write");
    assert_eq!(sent[0][REMAP_SELECT_OFFSET + 2], 0x29); // select Esc scancode
    assert_eq!(sent[1][REMAP_WRITE_OFFSET + 2], 0x04); // write KC_A low byte

    // Buffer cleared — a second commit is a no-op.
    commit(&mut d, &mut sent, false).unwrap();
    assert_eq!(sent.len(), 2);
}

#[test]
fn commit_skips_unknown_positions() {
    let mut d = driver();
    let mut sent = Vec::new();
    d.set_keycode(0, 3, 5, 0x0004); // row!=0 -> no known scancode
    commit(&mut d, &mut sent, false).unwrap();
    assert!(sent.is_empty());
}

#[test]
fn commit_propagates_transport_failure() {
    let mut d = driver();
    let mut sent = Vec::new();
    d.set_keycode(0, 0, 0x29, 0x0004);
    assert!(matches!(commit(&mut d, &mut sent, true), Err(DriverError::Disconnected)));
}

#[test]
fn epomaker_descriptor_feature_report_detection() {
    // Report Count 64 (95 40), Report Size 8 (75 08), Feature Var (B1 02).
    let if0 = [0x95u8, 0x40, 0x75, 0x08, 0xB1, 0x02];
    assert!(descriptor_has_feature_report(&if0, 64));
    // No feature item present (just an input report).
    let if1 = [0x95u8, 0x08, 0x75, 0x08, 0x81, 0x02];
    assert!(!descriptor_has_feature_report(&if1, 64));
    // Feature present but smaller than 64.
    let small = [0x95u8, 0x03, 0x75, 0x08, 0xB1, 0x02];
    assert!(!descriptor_has_feature_report(&small, 64));
}

#[test]
fn epomaker_probe_tells_the_interfaces_apart() {
    assert!(probe_vendor_feature_interface(&[0x95, 0x40, 0xB1, 0x02]).is_ok());
    assert!(matches!(
        probe_vendor_feature_interface(&[0x95, 0x08, 0x81, 0x02]),
        Err(DriverError::ProtocolViolation {
            reason: "not the EK68 vendor interface (no 64-byte Feature report in HID descriptor)",
        })
    ));
}

#[test]
fn epomaker_lighting_payload_round_trips() {
    let l = Lighting { mode: 7, r: 1, g: 2, b: 3, brightness: 4, rainbow: true };
    let data = l.to_bytes();
    assert_eq!(data, vec![7, 1, 2, 3, 4, 1]);
    assert_eq!(Lighting::from_bytes(&data), l);
    // Missing bytes take their defaults.
    assert_eq!(Lighting::from_bytes(&[2]).mode, 2);
}

#[test]
fn ek68_writes_wait_for_a_commit() {
    assert_eq!(EpomakerDriver::new((5, 15), 1).buffering(), Buffering::Shadowed);
}
