use std::collections::{HashMap, HashSet, VecDeque};

use clackd::engine::worker::Buffering;
use clackd::hal::keymap::Slot;
use clackd::hal::legacy::logitech::attach::{
    Attach, AttachInfo, Progress, FEAT_IDX_ROOT, ONBOARD_MODE_ONBOARD, ONB_GET_CURRENT_PROFILE, ONB_GET_DESCRIPTION,
    ONB_MEMORY_READ, ONB_SET_MODE, PING_MAGIC, ROOT_GET_FEATURE, ROOT_PING,
};
use clackd::hal::legacy::logitech::hidpp::{
    call_outcome, classify_reply, encode_long_request, hidpp1_error_to_driver, hidpp2_error_to_driver, HidppCall,
    PendingRequest, ReplyKind, ERR_HIDPP1_SUBID, ERR_HIDPP2_MARKER, HIDPP1_ERR_RESOURCE_ERROR,
    HIDPP2_ERR_INVALID_ARGUMENT, HIDPP2_ERR_INVALID_FUNCTION_ID, LONG_LEN, LONG_PARAMS, REPORT_ID_LONG,
    REPORT_ID_SHORT, SW_ID,
};
use clackd::hal::legacy::logitech::profile::{
    compile_profile_image, crc_ccitt, decode_gkey_binding, encode_gkey_binding, gkey_binding_offset,
    parse_gkey_bindings, sector_crc_valid,
};
use clackd::hal::legacy::logitech::{
    effect_period_ms, encode_cluster_effect, lighting_from_bytes, lighting_to_bytes, probe_hidpp_interface,
    CommitStep, LogitechDriver, EFFECT_FIXED, MEM_CHUNK, ONB_MEMORY_ADDR_WRITE, ONB_MEMORY_WRITE,
    ONB_MEMORY_WRITE_END, RGB_CLUSTER_PRIMARY, RGB_PERSIST_FLASH, RGB_PERSIST_RAM, RGB_SET_CLUSTER_EFFECT,
};
use clackd::hal::legacy::{
    CacheStatus, LightingState, ShadowState, VIA_CHANNEL_PACKED, VIA_CHANNEL_RGB_MATRIX, VIA_VALUE_BRIGHTNESS,
    VIA_VALUE_COLOR, VIA_VALUE_EFFECT, VIA_VALUE_SPEED,
};
use clackd::hal::DriverError;

const FEAT_ONB_IDX: u8 = 0x10;
const FEAT_RGB_IDX: u8 = 0x11;
const SECTOR: u16 = 0x0001;
const SECTOR_SIZE: u16 = 0x0100;

/// The address of one call.
type CallKey = (u8, u8, u8);

/// Records every call and serves scripted replies.
struct Wire {
    calls: Vec<(u8, u8, u8, Vec<u8>)>,
    replies: HashMap<CallKey, VecDeque<[u8; LONG_PARAMS]>>,
    fail_on: HashSet<CallKey>,
}

impl Wire {
    fn new() -> Self {
        Self { calls: Vec::new(), replies: HashMap::new(), fail_on: HashSet::new() }
    }

    fn script(&mut self, key: CallKey, params: [u8; LONG_PARAMS]) {
        self.replies.entry(key).or_default().push_back(params);
    }

    fn calls_for(&self, feature_idx: u8, func: u8) -> Vec<Vec<u8>> {
        self.calls
            .iter()
            .filter(|c| c.1 == feature_idx && c.2 == func)
            .map(|c| c.3.clone())
            .collect()
    }

    fn call(&mut self, call: &HidppCall) -> Result<[u8; LONG_PARAMS], DriverError> {
        let key = (call.device_idx, call.feature_idx, call.func);
        if self.fail_on.contains(&key) {
            return Err(DriverError::Disconnected);
        }
        self.calls.push((key.0, key.1, key.2, call.params.clone()));
        let scripted = self.replies.get_mut(&key).and_then(|q| q.pop_front());
        Ok(scripted.unwrap_or([0u8; LONG_PARAMS]))
    }
}

fn attach_info() -> AttachInfo {
    AttachInfo {
        device_idx: 0x02,
        feat_onboard: FEAT_ONB_IDX,
        feat_rgb: Some(FEAT_RGB_IDX),
        sector_size: SECTOR_SIZE,
        profile_sector: SECTOR,
    }
}

/// A baseline image with a valid CRC and no bindings.
fn empty_baseline() -> Vec<u8> {
    let mut image = vec![0u8; SECTOR_SIZE as usize];
    let crc_at = image.len() - 2;
    let crc = crc_ccitt(&image[..crc_at]);
    image[crc_at..].copy_from_slice(&crc.to_be_bytes());
    image
}

fn fresh() -> LogitechDriver {
    LogitechDriver::new((1, 5), 3, ShadowState::ephemeral())
}

fn attached_with(info: AttachInfo, baseline: Option<Vec<u8>>) -> LogitechDriver {
    let mut d = fresh();
    d.attach_finished(info, baseline);
    d
}

fn driver() -> LogitechDriver {
    attached_with(attach_info(), Some(empty_baseline()))
}

/// Carries out a whole commit.
fn commit(d: &mut LogitechDriver, wire: &mut Wire) -> Result<(), DriverError> {
    let mut step = d.begin_commit();
    loop {
        match step {
            CommitStep::Push { calls, image } => {
                let mut outcome = Ok(());
                for call in &calls {
                    outcome = wire.call(call).map(|_| ());
                    if outcome.is_err() {
                        break;
                    }
                }
                step = d.push_finished(image, outcome).1;
            }
            CommitStep::Persist { call } => {
                let outcome = wire.call(&call).map(|_| ());
                return d.persist_finished(outcome);
            }
            CommitStep::Done { result } => return result,
        }
    }
}

fn set_lighting(
    d: &mut LogitechDriver,
    wire: &mut Wire,
    channel: u8,
    value_id: u8,
    data: &[u8],
) -> Result<(), DriverError> {
    let (lighting, call) = d.set_lighting(channel, value_id, data)?;
    wire.call(&call)?;
    d.lighting_applied(lighting);
    Ok(())
}

/// Carries out the handshake.
fn attach(d: &mut LogitechDriver, wire: &mut Wire) -> Result<AttachInfo, DriverError> {
    let mut handshake = Attach::new();
    loop {
        let reply = wire.call(&handshake.request());
        match handshake.reply(reply) {
            Progress::Continue => {}
            Progress::Named { model } => d.named(model),
            Progress::Failed { error } => return Err(error),
            Progress::Attached { info, image } => {
                d.attach_finished(info, image);
                return Ok(info);
            }
        }
    }
}

#[test]
fn crc_ccitt_known_vectors() {
    // The canonical CCITT-FALSE check value.
    assert_eq!(crc_ccitt(b"123456789"), 0x29B1);
    assert_eq!(crc_ccitt(&[]), 0xFFFF);
}

#[test]
fn long_request_layout() {
    let f = encode_long_request(0xFF, 0x10, 0x5, &[0xAA, 0xBB]).unwrap();
    assert_eq!(f[0], REPORT_ID_LONG);
    assert_eq!(f[1], 0xFF);
    assert_eq!(f[2], 0x10);
    assert_eq!(f[3], (0x5 << 4) | SW_ID);
    assert_eq!(&f[4..6], &[0xAA, 0xBB]);
    assert_eq!(f.len(), LONG_LEN);
    assert!(encode_long_request(0xFF, 0x10, 0x5, &[0u8; 17]).is_err());
}

#[test]
fn classify_matches_and_zero_pads_short_replies() {
    let req = PendingRequest::new(0x02, 0x10, 0x5);
    // Short reply: 3 param bytes, rest must read as zero.
    let frame = [REPORT_ID_SHORT, 0x02, 0x10, (0x5 << 4) | SW_ID, 1, 2, 3];
    match classify_reply(&req, &frame) {
        ReplyKind::Match(p) => {
            assert_eq!(&p[..3], &[1, 2, 3]);
            assert!(p[3..].iter().all(|&b| b == 0));
        }
        other => panic!("expected Match, got {other:?}"),
    }
}

#[test]
fn classify_skips_notifications_and_other_devices() {
    let req = PendingRequest::new(0x02, 0x10, 0x5);
    // Device-arrival notification (sub-id 0x41) on our index.
    let notif = [REPORT_ID_SHORT, 0x02, 0x41, 0x04, 0x00, 0x00, 0x00];
    assert_eq!(classify_reply(&req, &notif), ReplyKind::Ignore);
    // Correct echo but a different device index.
    let other_dev = [REPORT_ID_SHORT, 0x03, 0x10, (0x5 << 4) | SW_ID, 0, 0, 0];
    assert_eq!(classify_reply(&req, &other_dev), ReplyKind::Ignore);
    // Same feature/function but another client's sw_id.
    let other_sw = [REPORT_ID_SHORT, 0x02, 0x10, (0x5 << 4) | 0x01, 0, 0, 0];
    assert_eq!(classify_reply(&req, &other_sw), ReplyKind::Ignore);
    // Runt frame.
    assert_eq!(classify_reply(&req, &[0x10, 0x02]), ReplyKind::Ignore);
}

#[test]
fn classify_detects_both_error_shapes() {
    let req = PendingRequest::new(0x02, 0x10, 0x5);
    let e2 = [
        REPORT_ID_LONG,
        0x02,
        ERR_HIDPP2_MARKER,
        0x10,
        (0x5 << 4) | SW_ID,
        HIDPP2_ERR_INVALID_FUNCTION_ID,
        0,
    ];
    assert_eq!(
        classify_reply(&req, &e2),
        ReplyKind::Hidpp2Error(HIDPP2_ERR_INVALID_FUNCTION_ID)
    );
    let e1 = [
        REPORT_ID_SHORT,
        0x02,
        ERR_HIDPP1_SUBID,
        0x10,
        (0x5 << 4) | SW_ID,
        HIDPP1_ERR_RESOURCE_ERROR,
        0,
    ];
    assert_eq!(
        classify_reply(&req, &e1),
        ReplyKind::Hidpp1Error(HIDPP1_ERR_RESOURCE_ERROR)
    );
    assert!(matches!(call_outcome(&req, &e1), Some(Err(DriverError::Disconnected))));
    assert!(matches!(call_outcome(&req, &e2), Some(Err(DriverError::Unsupported { .. }))));
    assert!(call_outcome(&req, &[0x10, 0x02]).is_none());
}

#[test]
fn error_code_mapping() {
    assert!(matches!(
        hidpp2_error_to_driver(HIDPP2_ERR_INVALID_FUNCTION_ID),
        DriverError::Unsupported { .. }
    ));
    assert!(matches!(
        hidpp2_error_to_driver(HIDPP2_ERR_INVALID_ARGUMENT),
        DriverError::ProtocolViolation { .. }
    ));
    assert!(matches!(
        hidpp1_error_to_driver(HIDPP1_ERR_RESOURCE_ERROR),
        DriverError::Disconnected
    ));
    assert!(matches!(
        hidpp1_error_to_driver(0x01),
        DriverError::ProtocolViolation { .. }
    ));
}

#[test]
fn gkey_binding_encoding() {
    // KC_A → plain usage.
    assert_eq!(encode_gkey_binding(0x0004).unwrap(), [0x80, 0x02, 0x00, 0x04]);
    // KC_NO → unassigned.
    assert_eq!(encode_gkey_binding(0x0000).unwrap(), [0, 0, 0, 0]);
    // Bare left-shift → modifier mask only.
    assert_eq!(encode_gkey_binding(0x00E1).unwrap(), [0x80, 0x02, 0x02, 0x00]);
    // LCTL(KC_C) = 0x0106 → ctrl mask + usage.
    assert_eq!(encode_gkey_binding(0x0106).unwrap(), [0x80, 0x02, 0x01, 0x06]);
    // RALT(KC_A): right-hand bit set → mask shifted to the high nibble.
    assert_eq!(encode_gkey_binding(0x1404).unwrap(), [0x80, 0x02, 0x40, 0x04]);
    // Layer-tap and friends are not expressible.
    assert!(matches!(
        encode_gkey_binding(0x5C00),
        Err(DriverError::VendorCompile { vendor: "logitech", .. })
    ));
    // KC_TRNS has no meaning on a bank-based device.
    assert!(encode_gkey_binding(0x0001).is_err());
}

#[test]
fn gkey_binding_round_trip() {
    for kc in [0x0004u16, 0x0052, 0x00A4, 0x00E1, 0x0106, 0x1404, 0x0204] {
        let enc = encode_gkey_binding(kc).unwrap();
        assert_eq!(decode_gkey_binding(&enc), Some(kc), "kc=0x{kc:04x}");
    }
    // Unassigned decodes to no entry.
    assert_eq!(decode_gkey_binding(&[0, 0, 0, 0]), None);
    // Non-key binding types stay device-owned.
    assert_eq!(decode_gkey_binding(&[0x90, 0x01, 0, 0]), None);
    // Mixed-hand modifier masks are not one QMK code.
    assert_eq!(decode_gkey_binding(&[0x80, 0x02, 0x11, 0x04]), None);
}

#[test]
fn compile_patches_slot_and_recomputes_crc() {
    let baseline = empty_baseline();
    let image = compile_profile_image(&baseline, &[(0, 0, 0x0004), (2, 4, 0x0106)]).unwrap();
    assert_eq!(image.len(), baseline.len());
    // Layer 0, G1 at 0x20.
    assert_eq!(&image[0x20..0x24], &[0x80, 0x02, 0x00, 0x04]);
    // Layer 2, G5 at 0x20 + 2*0x40 + 4*4 = 0xB0.
    assert_eq!(&image[0xB0..0xB4], &[0x80, 0x02, 0x01, 0x06]);
    assert!(sector_crc_valid(&image));
    // And it differs from the (also valid) empty baseline CRC.
    assert_ne!(image, baseline);
    assert_eq!(gkey_binding_offset(2, 4), Some(0xB0));
    assert_eq!(gkey_binding_offset(3, 0), None);
}

#[test]
fn compile_rejects_small_baseline_and_bad_entries() {
    assert!(matches!(
        compile_profile_image(&[0u8; 16], &[]),
        Err(DriverError::VendorCompile { vendor: "logitech", .. })
    ));
    let baseline = empty_baseline();
    assert!(compile_profile_image(&baseline, &[(3, 0, 0x0004)]).is_err());
    assert!(compile_profile_image(&baseline, &[(0, 0, 0x5C00)]).is_err());
}

#[test]
fn parse_recovers_bindings_from_image() {
    let baseline = empty_baseline();
    let image = compile_profile_image(&baseline, &[(0, 1, 0x0052), (1, 0, 0x00E1)]).unwrap();
    let entries = parse_gkey_bindings(&image, 3, 5);
    assert_eq!(entries.len(), 2);
    assert_eq!(entries.get(&Slot { layer: 0, row: 0, col: 1 }), Some(&0x0052));
    assert_eq!(entries.get(&Slot { layer: 1, row: 0, col: 0 }), Some(&0x00E1));
}

#[test]
fn cluster_effect_frame_layout() {
    let l = LightingState {
        mode: EFFECT_FIXED,
        r: 0xFF,
        g: 0x20,
        b: 0x00,
        brightness: 0x80,
        speed: 0,
        direction: 0,
        random: false,
    };
    let p = encode_cluster_effect(RGB_CLUSTER_PRIMARY, &l, RGB_PERSIST_FLASH);
    assert_eq!(p[0], 0x00);
    assert_eq!(p[1], EFFECT_FIXED);
    assert_eq!(&p[2..5], &[0xFF, 0x20, 0x00]);
    assert_eq!(u16::from_be_bytes([p[5], p[6]]), 2000);
    assert_eq!(p[7], 0x80);
    assert_eq!(p[9], RGB_PERSIST_FLASH);
}

#[test]
fn effect_period_scales_with_speed() {
    assert_eq!(effect_period_ms(0), 2000);
    assert!(effect_period_ms(255) < effect_period_ms(0));
    assert_eq!(effect_period_ms(255), 215);
}

#[test]
fn logitech_set_keycode_is_buffered_until_commit() {
    let mut wire = Wire::new();
    let mut d = driver();
    d.set_keycode(0, 0, 0, 0x0004).unwrap();
    // Nothing on the wire yet.
    assert!(wire.calls.is_empty());
    assert_eq!(d.get_keycode(0, 0, 0), 0x0004);
    assert_eq!(d.status(), CacheStatus::Pending);

    commit(&mut d, &mut wire).unwrap();
    // One full write session: addr-write, 16 chunks of a 256-byte
    // sector, write-end.
    assert_eq!(wire.calls_for(FEAT_ONB_IDX, ONB_MEMORY_ADDR_WRITE).len(), 1);
    assert_eq!(
        wire.calls_for(FEAT_ONB_IDX, ONB_MEMORY_WRITE).len(),
        SECTOR_SIZE as usize / MEM_CHUNK
    );
    assert_eq!(wire.calls_for(FEAT_ONB_IDX, ONB_MEMORY_WRITE_END).len(), 1);
    assert_eq!(d.status(), CacheStatus::Confirmed);
}

#[test]
fn commit_session_addresses_the_profile_sector() {
    let mut wire = Wire::new();
    let mut d = driver();
    d.set_keycode(1, 0, 2, 0x0052).unwrap();
    commit(&mut d, &mut wire).unwrap();

    let addr = &wire.calls_for(FEAT_ONB_IDX, ONB_MEMORY_ADDR_WRITE)[0];
    // [sector_hi, sector_lo, offset_hi, offset_lo, count_hi, count_lo]
    assert_eq!(&addr[..6], &[0x00, 0x01, 0x00, 0x00, 0x01, 0x00]);

    // The pushed chunks reassemble into the compiled image.
    let chunks = wire.calls_for(FEAT_ONB_IDX, ONB_MEMORY_WRITE);
    let pushed: Vec<u8> = chunks.concat();
    let expected = compile_profile_image(&empty_baseline(), &[(1, 2, 0x0052)]).unwrap();
    assert_eq!(pushed, expected);
}

#[test]
fn failed_push_rolls_back_to_last_known_good() {
    let mut wire = Wire::new();
    let mut d = driver();

    // Commit 0x0004 as known-good.
    d.set_keycode(0, 0, 0, 0x0004).unwrap();
    commit(&mut d, &mut wire).unwrap();

    // Now fail the next push mid-session.
    wire.fail_on.insert((0x02, FEAT_ONB_IDX, ONB_MEMORY_WRITE));
    d.set_keycode(0, 0, 0, 0x0052).unwrap();
    let err = commit(&mut d, &mut wire);
    assert!(err.is_err());

    // Shadow reverted to the last successful commit.
    assert_eq!(d.get_keycode(0, 0, 0), 0x0004);
    assert_eq!(d.status(), CacheStatus::Failed);
    assert!(!d.is_dirty());
}

#[test]
fn commit_without_baseline_is_refused() {
    let mut wire = Wire::new();
    let mut d = attached_with(attach_info(), None);
    d.set_keycode(0, 0, 0, 0x0004).unwrap();
    assert!(matches!(
        commit(&mut d, &mut wire),
        Err(DriverError::VendorCompile { vendor: "logitech", .. })
    ));
    // Refused before anything touched the wire.
    assert!(wire.calls_for(FEAT_ONB_IDX, ONB_MEMORY_ADDR_WRITE).is_empty());
}

#[test]
fn set_keycode_rejects_invalid_positions_and_keycodes_early() {
    let mut d = driver();
    // Layer beyond the M-key banks.
    assert!(matches!(
        d.set_keycode(3, 0, 0, 0x0004),
        Err(DriverError::Unsupported { .. })
    ));
    // Row 1 does not exist; column beyond the G-keys.
    assert!(d.set_keycode(0, 1, 0, 0x0004).is_err());
    assert!(d.set_keycode(0, 0, 5, 0x0004).is_err());
    // Unmappable keycode fails at set time, not commit time.
    assert!(matches!(
        d.set_keycode(0, 0, 0, 0x5C00),
        Err(DriverError::VendorCompile { vendor: "logitech", .. })
    ));
    assert!(!d.is_dirty());
}

#[test]
fn macros_report_unsupported() {
    let d = driver();
    assert!(matches!(
        d.get_macro_buffer(0, 16),
        Err(DriverError::Unsupported { .. })
    ));
    assert!(matches!(
        d.set_macro_buffer(0, &[1, 2, 3]),
        Err(DriverError::Unsupported { .. })
    ));
}

#[test]
fn set_lighting_pushes_ram_effect_and_commit_persists_flash() {
    let mut wire = Wire::new();
    let mut d = driver();
    set_lighting(&mut d, &mut wire, VIA_CHANNEL_PACKED, 0, &[EFFECT_FIXED, 0xFF, 0x00, 0x00]).unwrap();

    let effects = wire.calls_for(FEAT_RGB_IDX, RGB_SET_CLUSTER_EFFECT);
    assert_eq!(effects.len(), 1);
    assert_eq!(effects[0][1], EFFECT_FIXED);
    assert_eq!(&effects[0][2..5], &[0xFF, 0x00, 0x00]);
    assert_eq!(effects[0][9], RGB_PERSIST_RAM);

    // Commit re-sends with the flash flag (no keymap edits pending).
    commit(&mut d, &mut wire).unwrap();
    let effects = wire.calls_for(FEAT_RGB_IDX, RGB_SET_CLUSTER_EFFECT);
    assert_eq!(effects.len(), 2);
    assert_eq!(effects[1][9], RGB_PERSIST_FLASH);
    // And the flag clears: a second commit sends nothing.
    commit(&mut d, &mut wire).unwrap();
    assert_eq!(wire.calls_for(FEAT_RGB_IDX, RGB_SET_CLUSTER_EFFECT).len(), 2);
}

#[test]
fn via_channel_patches_single_lighting_field() {
    let mut wire = Wire::new();
    let mut d = driver();
    set_lighting(&mut d, &mut wire, VIA_CHANNEL_RGB_MATRIX, VIA_VALUE_BRIGHTNESS, &[0x42]).unwrap();
    let effects = wire.calls_for(FEAT_RGB_IDX, RGB_SET_CLUSTER_EFFECT);
    assert_eq!(effects[0][7], 0x42);
    // Other fields kept their defaults.
    assert_eq!(effects[0][1], LightingState::default().mode);
    // Readback reflects the patch.
    assert_eq!(
        d.get_lighting(VIA_CHANNEL_RGB_MATRIX, VIA_VALUE_BRIGHTNESS).unwrap(),
        vec![0x42]
    );
}

#[test]
fn via_color_sets_rgb_from_hue_sat() {
    let mut wire = Wire::new();
    let mut d = driver();
    // Hue 0, full saturation → pure red.
    set_lighting(&mut d, &mut wire, VIA_CHANNEL_RGB_MATRIX, VIA_VALUE_COLOR, &[0, 255]).unwrap();
    let effects = wire.calls_for(FEAT_RGB_IDX, RGB_SET_CLUSTER_EFFECT);
    assert_eq!(&effects[0][2..5], &[255, 0, 0]);
    let hs = d.get_lighting(VIA_CHANNEL_RGB_MATRIX, VIA_VALUE_COLOR).unwrap();
    assert_eq!(hs, vec![0, 255]);
}

#[test]
fn lighting_without_rgb_feature_reports_unsupported() {
    let mut wire = Wire::new();
    let att = AttachInfo {
        feat_rgb: None,
        ..attach_info()
    };
    let mut d = attached_with(att, Some(empty_baseline()));
    assert!(matches!(
        set_lighting(&mut d, &mut wire, VIA_CHANNEL_PACKED, 0, &[EFFECT_FIXED]),
        Err(DriverError::Unsupported { .. })
    ));
    // Reads still serve the shadow (display-only).
    assert!(d.get_lighting(VIA_CHANNEL_PACKED, 0).is_ok());
}

#[test]
fn unsupported_lighting_channels_and_values_rejected() {
    let mut wire = Wire::new();
    let mut d = driver();
    assert!(set_lighting(&mut d, &mut wire, 7, 0, &[1]).is_err());
    assert!(d.get_lighting(7, 0).is_err());
    assert!(set_lighting(&mut d, &mut wire, VIA_CHANNEL_RGB_MATRIX, 9, &[1]).is_err());
    assert!(d.get_lighting(VIA_CHANNEL_RGB_MATRIX, 9).is_err());
}

/// Scripts a full successful handshake on receiver slot 2, with the given
/// profile image.
fn script_attach(wire: &mut Wire, image: &[u8]) {
    let dev = 0x02;
    // Ping succeeds only on slot 2 (unscripted indexes return zeros,
    // which fail the magic-echo check like a receiver would).
    let mut pong = [0u8; LONG_PARAMS];
    pong[0] = 4; // protocol major
    pong[2] = PING_MAGIC;
    wire.script((dev, FEAT_IDX_ROOT, ROOT_PING), pong);
    // getFeature order: 0x8100, then 0x8071, then 0x0005 (name absent).
    let mut feat = [0u8; LONG_PARAMS];
    feat[0] = FEAT_ONB_IDX;
    wire.script((dev, FEAT_IDX_ROOT, ROOT_GET_FEATURE), feat);
    feat[0] = FEAT_RGB_IDX;
    wire.script((dev, FEAT_IDX_ROOT, ROOT_GET_FEATURE), feat);
    wire.script((dev, FEAT_IDX_ROOT, ROOT_GET_FEATURE), [0u8; LONG_PARAMS]);
    // getDescription: sector size at params[7..9].
    let mut desc = [0u8; LONG_PARAMS];
    desc[3] = 3; // profile count
    desc[7..9].copy_from_slice(&SECTOR_SIZE.to_be_bytes());
    wire.script((dev, FEAT_ONB_IDX, ONB_GET_DESCRIPTION), desc);
    // getCurrentProfile → sector 1.
    let mut cur = [0u8; LONG_PARAMS];
    cur[0..2].copy_from_slice(&SECTOR.to_be_bytes());
    wire.script((dev, FEAT_ONB_IDX, ONB_GET_CURRENT_PROFILE), cur);
    // memoryRead chunks.
    for chunk in image.chunks(MEM_CHUNK) {
        let mut p = [0u8; LONG_PARAMS];
        p[..chunk.len()].copy_from_slice(chunk);
        wire.script((dev, FEAT_ONB_IDX, ONB_MEMORY_READ), p);
    }
}

#[test]
fn attach_discovers_slot_and_adopts_device_keymap() {
    let mut wire = Wire::new();
    let image = compile_profile_image(&empty_baseline(), &[(0, 0, 0x0004)]).unwrap();
    script_attach(&mut wire, &image);

    let mut d = fresh();
    attach(&mut d, &mut wire).unwrap();
    assert_eq!(d.get_matrix_dimensions(), (1, 5));

    // Wired 0xFF and slot 1 were probed and skipped before slot 2 bound.
    let ping_idxs: Vec<u8> = wire
        .calls
        .iter()
        .filter(|c| c.1 == FEAT_IDX_ROOT && c.2 == ROOT_PING)
        .map(|c| c.0)
        .collect();
    assert_eq!(ping_idxs, vec![0xFF, 0x01, 0x02]);

    // Device keymap adopted as confirmed baseline.
    assert_eq!(d.get_keycode(0, 0, 0), 0x0004);
    assert_eq!(d.status(), CacheStatus::Confirmed);
    assert!(d.has_baseline());

    // Onboard mode was requested.
    assert_eq!(wire.calls_for(FEAT_ONB_IDX, ONB_SET_MODE)[0][0], ONBOARD_MODE_ONBOARD);
}

#[test]
fn attach_with_bad_crc_keeps_shadow_and_refuses_commit() {
    let mut wire = Wire::new();
    // Valid handshake, but the sector content has a broken CRC.
    let mut image = empty_baseline();
    let len = image.len();
    image[len - 1] ^= 0xFF;
    script_attach(&mut wire, &image);

    let mut d = fresh();
    attach(&mut d, &mut wire).unwrap();
    assert!(!d.has_baseline());

    d.set_keycode(0, 0, 0, 0x0004).unwrap();
    assert!(matches!(
        commit(&mut d, &mut wire),
        Err(DriverError::VendorCompile { .. })
    ));
}

#[test]
fn attach_fails_disconnected_when_nothing_answers() {
    // All probes return zeros → ping magic never echoes → no device.
    let mut wire = Wire::new();
    let mut d = fresh();
    assert!(matches!(
        attach(&mut d, &mut wire),
        Err(DriverError::Disconnected)
    ));
    assert!(d.attached().is_none());
}

#[test]
fn attach_rejects_implausible_sector_size() {
    let mut wire = Wire::new();
    let dev = 0x02;
    let mut pong = [0u8; LONG_PARAMS];
    pong[2] = PING_MAGIC;
    wire.script((dev, FEAT_IDX_ROOT, ROOT_PING), pong);
    let mut feat = [0u8; LONG_PARAMS];
    feat[0] = FEAT_ONB_IDX;
    wire.script((dev, FEAT_IDX_ROOT, ROOT_GET_FEATURE), feat);
    // 0x8071 and 0x0005 absent.
    wire.script((dev, FEAT_IDX_ROOT, ROOT_GET_FEATURE), [0u8; LONG_PARAMS]);
    wire.script((dev, FEAT_IDX_ROOT, ROOT_GET_FEATURE), [0u8; LONG_PARAMS]);
    // getDescription with a zero sector size.
    wire.script((dev, FEAT_ONB_IDX, ONB_GET_DESCRIPTION), [0u8; LONG_PARAMS]);

    let mut d = fresh();
    assert!(matches!(
        attach(&mut d, &mut wire),
        Err(DriverError::ProtocolViolation { .. })
    ));
}

#[test]
fn model_name_defaults_without_name_feature() {
    let d = driver();
    assert_eq!(d.model_name(), "Logitech G915");
}

#[test]
fn logitech_lighting_payload_round_trips() {
    let l = LightingState {
        mode: 3,
        r: 1,
        g: 2,
        b: 3,
        brightness: 200,
        speed: 9,
        direction: 1,
        random: true,
    };
    assert_eq!(lighting_from_bytes(&LightingState::default(), &lighting_to_bytes(&l)), l);
}

#[test]
fn via_values_read_back() {
    let mut wire = Wire::new();
    let mut d = driver();
    for (value_id, data) in [
        (VIA_VALUE_BRIGHTNESS, vec![7u8]),
        (VIA_VALUE_EFFECT, vec![2]),
        (VIA_VALUE_SPEED, vec![99]),
        (VIA_VALUE_COLOR, vec![0, 0]),
    ] {
        set_lighting(&mut d, &mut wire, VIA_CHANNEL_RGB_MATRIX, value_id, &data).unwrap();
        assert_eq!(d.get_lighting(VIA_CHANNEL_RGB_MATRIX, value_id).unwrap(), data);
    }
    assert!(matches!(
        d.set_lighting(VIA_CHANNEL_RGB_MATRIX, VIA_VALUE_COLOR, &[1]),
        Err(DriverError::ProtocolViolation { .. })
    ));
}

#[test]
fn probe_accepts_both_usage_pages() {
    assert!(probe_hidpp_interface(&[0x06, 0x00, 0xFF, 0x09, 0x01]).is_ok());
    assert!(probe_hidpp_interface(&[0x06, 0x43, 0xFF, 0x09, 0x01]).is_ok());
    assert!(matches!(
        probe_hidpp_interface(&[0x05, 0x01]),
        Err(DriverError::ProtocolViolation {
            reason: "not a HID++ interface (no 0xFF00/0xFF43 usage page in HID descriptor)",
        })
    ));
    assert!(matches!(
        probe_hidpp_interface(&[]),
        Err(DriverError::ProtocolViolation { reason: "invalid or empty HID report descriptor size" })
    ));
}

#[test]
fn pushed_profile_holds_every_pending_key() {
    let mut wire = Wire::new();
    let mut d = driver();
    d.set_keycode(0, 0, 0, 0x0004).unwrap();
    d.set_keycode(2, 0, 4, 0x1404).unwrap();
    d.set_keycode(1, 0, 3, 0x0000).unwrap();
    commit(&mut d, &mut wire).unwrap();
    let pushed: Vec<u8> = wire.calls_for(FEAT_ONB_IDX, ONB_MEMORY_WRITE).concat();
    assert!(sector_crc_valid(&pushed));
    let entries = parse_gkey_bindings(&pushed, 3, 5);
    assert_eq!(entries.len(), 2);
    assert_eq!(entries.get(&Slot { layer: 2, row: 0, col: 4 }), Some(&0x1404));
}

#[test]
fn failed_push_leaves_the_lighting_for_later() {
    let mut wire = Wire::new();
    let mut d = driver();
    set_lighting(&mut d, &mut wire, VIA_CHANNEL_PACKED, 0, &[EFFECT_FIXED, 1, 2, 3]).unwrap();
    d.set_keycode(0, 0, 0, 0x0004).unwrap();
    wire.fail_on.insert((0x02, FEAT_ONB_IDX, ONB_MEMORY_WRITE));
    assert!(matches!(commit(&mut d, &mut wire), Err(DriverError::Disconnected)));
    // Only the call that applied the lighting was made.
    assert_eq!(wire.calls_for(FEAT_RGB_IDX, RGB_SET_CLUSTER_EFFECT).len(), 1);

    // The next commit has no keymap to push, and makes the lighting durable.
    wire.fail_on.clear();
    commit(&mut d, &mut wire).unwrap();
    let effects = wire.calls_for(FEAT_RGB_IDX, RGB_SET_CLUSTER_EFFECT);
    assert_eq!(effects.len(), 2);
    assert_eq!(effects[1][9], RGB_PERSIST_FLASH);
}

#[test]
fn keymap_is_pushed_before_the_lighting() {
    let mut wire = Wire::new();
    let mut d = driver();
    set_lighting(&mut d, &mut wire, VIA_CHANNEL_PACKED, 0, &[EFFECT_FIXED, 1, 2, 3]).unwrap();
    d.set_keycode(0, 0, 0, 0x0004).unwrap();
    commit(&mut d, &mut wire).unwrap();
    let last = wire.calls.last().unwrap();
    assert_eq!((last.1, last.2), (FEAT_RGB_IDX, RGB_SET_CLUSTER_EFFECT));
    assert_eq!(wire.calls_for(FEAT_ONB_IDX, ONB_MEMORY_WRITE_END).len(), 1);
}

#[test]
fn failed_lighting_persist_is_tried_again() {
    let mut wire = Wire::new();
    let mut d = driver();
    set_lighting(&mut d, &mut wire, VIA_CHANNEL_PACKED, 0, &[EFFECT_FIXED, 1, 2, 3]).unwrap();
    wire.fail_on.insert((0x02, FEAT_RGB_IDX, RGB_SET_CLUSTER_EFFECT));
    assert!(commit(&mut d, &mut wire).is_err());
    wire.fail_on.clear();
    assert!(matches!(d.begin_commit(), CommitStep::Persist { .. }));
}

#[test]
fn keymap_writes_wait_for_a_commit() {
    assert_eq!(driver().buffering(), Buffering::Shadowed);
}

#[test]
fn attach_assumes_the_default_sector_when_none_is_active() {
    let mut wire = Wire::new();
    script_attach(&mut wire, &empty_baseline());
    wire.replies.remove(&(0x02, FEAT_ONB_IDX, ONB_GET_CURRENT_PROFILE));
    let info = attach(&mut fresh(), &mut wire).unwrap();
    assert_eq!(info.profile_sector, 0x0001);
}
