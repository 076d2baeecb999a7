use clackd::engine::worker::Buffering;
use clackd::hal::legacy::gmk67::{
    descriptor_has_feature_report, encode_keydef_buffer, find_matrix_pos_for_key_index, key_index_for, keydef_command,
    keydef_read_command, probe_vendor_feature_interface, Gmk67Driver, Lighting, Step, SyncStep, BRIGHTNESS_MAX,
    BRIGHTNESS_MIN, CMD_COMMUNICATION_END, CMD_LED_EFFECT_START, CMD_READ_KEY_DEFINITION_AREA,
    CMD_READ_KEY_DEFINITION_AREA_FN, CMD_TURN_ON_CUSTOMIZATION, CMD_WRITE_KEY_DEFINITION_AREA,
    CMD_WRITE_KEY_DEFINITION_AREA_FN, CMD_WRITE_LED_SPECIAL_EFFECT_AREA, FOOTER_MAGIC, FRAME_LEN, KEY_DEF_BUF_LEN,
    KEY_DEF_ENTRY_MARKER, KEY_DEF_PAGES, LED_SPECIAL_EFFECT_PACKETS, MF_B, MF_BRIGHTNESS, MF_DIRECTION, MF_FOOTER,
    MF_G, MF_MODE, MF_R, MF_RANDOM, MF_SPEED, MODE_LIGHTS_OFF, MODE_STATIC, PACKET_HEADER, SPEED_MAX,
};
use clackd::hal::legacy::{CommitOutcome, ShadowState};
use clackd::hal::DriverError;

fn driver() -> Gmk67Driver {
    Gmk67Driver::new((5, 15), 2, ShadowState::ephemeral())
}

/// Sends the frames of `steps` to `sent`, or fails at the first one.
fn exchange(steps: &[Step], sent: &mut Vec<[u8; 64]>, failing: bool) -> Result<(), DriverError> {
    for step in steps {
        if let Step::Send { frame } = step {
            if failing {
                return Err(DriverError::Disconnected);
            }
            sent.push(*frame);
        }
    }
    Ok(())
}

fn commit(d: &mut Gmk67Driver, sent: &mut Vec<[u8; 64]>, failing: bool) -> Result<(), DriverError> {
    let Some(transactions) = d.begin_commit() else {
        return Ok(());
    };
    let mut outcome = Ok(());
    for steps in &transactions {
        outcome = exchange(steps, sent, failing);
        if outcome.is_err() {
            break;
        }
    }
    let CommitOutcome { result, .. } = d.finish_commit(outcome);
    result
}

#[test]
fn gmk67_lighting_static_red_layout() {
    let f = Lighting {
        mode: MODE_STATIC,
        r: 0xFF,
        g: 0,
        b: 0,
        brightness: 0x0F,
        speed: 0x08,
        direction: 0x01,
        random: false,
    }
    .encode();
    assert_eq!(f[MF_MODE], 0x01);
    assert_eq!(f[MF_R], 0xFF);
    assert_eq!(f[MF_G], 0x00);
    assert_eq!(f[MF_B], 0x00);
    assert_eq!(f[MF_RANDOM], 0x00);
    assert_eq!(f[MF_BRIGHTNESS], 0x0F);
    assert_eq!(f[MF_SPEED], 0x08);
    assert_eq!(f[MF_DIRECTION], 0x01);
    assert_eq!(&f[MF_FOOTER..MF_FOOTER + 2], &FOOTER_MAGIC);
}

#[test]
fn lighting_off_mode_is_0x80() {
    let f = Lighting {
        mode: MODE_LIGHTS_OFF,
        ..Lighting::default()
    }
    .encode();
    assert_eq!(f[MF_MODE], 0x80);
    assert_eq!(&f[MF_FOOTER..MF_FOOTER + 2], &FOOTER_MAGIC);
}

#[test]
fn brightness_and_speed_are_clamped() {
    let f = Lighting {
        brightness: 0xFF,
        speed: 0xFF,
        ..Lighting::default()
    }
    .encode();
    assert_eq!(f[MF_BRIGHTNESS], BRIGHTNESS_MAX);
    assert_eq!(f[MF_SPEED], SPEED_MAX);
    let f0 = Lighting {
        brightness: 0x00,
        ..Lighting::default()
    }
    .encode();
    assert_eq!(f0[MF_BRIGHTNESS], BRIGHTNESS_MIN);
}

#[test]
fn key_index_for_maps_matrix() {
    assert_eq!(key_index_for(0, 0), Some(1)); // Esc
    assert_eq!(key_index_for(2, 7), Some(62)); // J
    assert_eq!(key_index_for(4, 3), Some(94)); // Space
    assert_eq!(key_index_for(4, 9), None); // empty cell
    assert_eq!(key_index_for(0, 14), None); // empty cell
    assert_eq!(key_index_for(9, 9), None); // out of bounds
}

#[test]
fn keydef_command_per_layer() {
    assert_eq!(keydef_command(0), Some(CMD_WRITE_KEY_DEFINITION_AREA)); // 0x11
    assert_eq!(keydef_command(1), Some(CMD_WRITE_KEY_DEFINITION_AREA_FN)); // 0x27
    assert_eq!(keydef_command(2), None);
}

#[test]
fn keydef_buffer_places_entry_at_index_times_4() {
    // Esc (key_index 1) and Space (key_index 94) -> KC_A (little-endian).
    let buf = encode_keydef_buffer(&[(1, 0x0004), (94, 0x0004)]);
    assert_eq!(buf[1 * 4], KEY_DEF_ENTRY_MARKER);
    assert_eq!(buf[1 * 4 + 2], 0x04);
    assert_eq!(buf[1 * 4 + 3], 0x00);
    assert_eq!(buf[94 * 4], KEY_DEF_ENTRY_MARKER);
    assert_eq!(buf[94 * 4 + 2], 0x04);
    // Check code lives on the last page (bytes 62/63 of page 8).
    assert_eq!(buf[KEY_DEF_BUF_LEN - 2], FOOTER_MAGIC[0]);
    assert_eq!(buf[KEY_DEF_BUF_LEN - 1], FOOTER_MAGIC[1]);
    assert_eq!(buf.len(), 9 * FRAME_LEN);
}

#[test]
fn set_lighting_runs_full_transaction() {
    let mut d = driver();
    let mut sent = Vec::new();
    let (lighting, steps) = d.set_lighting(&[MODE_STATIC, 0x00, 0xFF, 0x00, 0x08, 0]).unwrap();
    exchange(&steps, &mut sent, false).unwrap();
    d.lighting_rendered(lighting);

    assert_eq!(
        sent.len(),
        5,
        "transaction = customization, page, mode, end, start"
    );
    // 1. SetCustomization(ON)
    assert_eq!(sent[0][0], PACKET_HEADER);
    assert_eq!(sent[0][1], CMD_TURN_ON_CUSTOMIZATION);
    // 2. StartEffectPage
    assert_eq!(sent[1][0], PACKET_HEADER);
    assert_eq!(sent[1][1], CMD_WRITE_LED_SPECIAL_EFFECT_AREA);
    assert_eq!(sent[1][8], LED_SPECIAL_EFFECT_PACKETS);
    // 3. the mode frame
    assert_eq!(sent[2][MF_MODE], MODE_STATIC);
    assert_eq!(sent[2][MF_G], 0xFF);
    assert_eq!(sent[2][MF_BRIGHTNESS], 0x08);
    assert_eq!(&sent[2][MF_FOOTER..MF_FOOTER + 2], &FOOTER_MAGIC);
    // 4. EndCommunication
    assert_eq!(sent[3][0], PACKET_HEADER);
    assert_eq!(sent[3][1], CMD_COMMUNICATION_END);
    // 5. StartEffectCommand
    assert_eq!(sent[4][0], PACKET_HEADER);
    assert_eq!(sent[4][1], CMD_LED_EFFECT_START);

    // get_lighting reflects the last set.
    assert_eq!(d.get_lighting()[2], 0xFF);
}

#[test]
fn gmk67_out_of_range_mode_rejected() {
    let d = driver();
    // 0x14 is just past the effect range and is not the 0x80 off mode.
    let err = d.set_lighting(&[0x14, 0, 0, 0]).unwrap_err();
    assert!(matches!(err, DriverError::ProtocolViolation { .. }));
}

#[test]
fn lighting_transaction_propagates_failure() {
    let d = driver();
    let mut sent = Vec::new();
    let (_, steps) = d.set_lighting(&[MODE_STATIC, 0xFF, 0, 0]).unwrap();
    assert!(matches!(
        exchange(&steps, &mut sent, true),
        Err(DriverError::Disconnected)
    ));
}

#[test]
fn gmk67_set_keycode_is_buffered_until_commit() {
    let mut d = driver();
    let mut sent = Vec::new();
    d.set_keycode(0, 0, 0, 0x0004); // Esc (key_index 1) -> A
    assert!(
        sent.is_empty(),
        "writes must not hit the wire before commit"
    );
    assert_eq!(d.get_keycode(0, 0, 0), 0x0004);

    commit(&mut d, &mut sent, false).unwrap();
    // transaction = 04 18, 04 11, 9 pages, 04 02, 04 f0 = 13 frames.
    assert_eq!(sent.len(), 2 + KEY_DEF_PAGES + 2);
    assert_eq!(
        (sent[0][0], sent[0][1]),
        (PACKET_HEADER, CMD_TURN_ON_CUSTOMIZATION)
    );
    assert_eq!(
        (sent[1][0], sent[1][1]),
        (PACKET_HEADER, CMD_WRITE_KEY_DEFINITION_AREA)
    );
    assert_eq!(sent[1][8], KEY_DEF_PAGES as u8);
    // Esc entry at offset 4 lives in page 0 (frame index 2).
    assert_eq!(sent[2][4], KEY_DEF_ENTRY_MARKER);
    assert_eq!(sent[2][6], 0x04);
    // Check code on the last page (frame index 2+8 = 10).
    assert_eq!(sent[2 + KEY_DEF_PAGES - 1][62], 0xAA);
    assert_eq!(sent[2 + KEY_DEF_PAGES - 1][63], 0x55);
    // Trailer.
    assert_eq!(
        (sent[11][0], sent[11][1]),
        (PACKET_HEADER, CMD_COMMUNICATION_END)
    );
    assert_eq!(
        (sent[12][0], sent[12][1]),
        (PACKET_HEADER, CMD_LED_EFFECT_START)
    );

    // Buffer cleared — a second commit is a no-op.
    commit(&mut d, &mut sent, false).unwrap();
    assert_eq!(sent.len(), 13);
}

#[test]
fn commit_sends_full_keymap_not_just_dirty() {
    let mut d = driver();
    let mut sent = Vec::new();
    d.set_keycode(0, 0, 0, 0x0004); // Esc -> A
    d.set_keycode(0, 2, 7, 0x0005); // J (key_index 62) -> B
    commit(&mut d, &mut sent, false).unwrap();
    // page 0 has Esc; page for J (62*4=248 -> page 3, offset 56) has J.
    assert_eq!(sent[2][4], KEY_DEF_ENTRY_MARKER); // Esc in page 0
    assert_eq!(sent[2 + 3][56], KEY_DEF_ENTRY_MARKER); // J in page 3
    assert_eq!(sent[2 + 3][58], 0x05); // KC_B low byte

    // A later commit of another key sends both again.
    sent.clear();
    d.set_keycode(0, 2, 1, 0x0006); // A (key_index 56) -> C
    commit(&mut d, &mut sent, false).unwrap();
    assert_eq!(sent[2][4], KEY_DEF_ENTRY_MARKER);
    assert_eq!(sent[2 + 3][34], 0x06);
}

#[test]
fn fn_layer_remap_uses_command_0x27() {
    let mut d = driver();
    let mut sent = Vec::new();
    d.set_keycode(1, 2, 1, 0x0042); // Fn layer, A (key_index 56) -> F9
    commit(&mut d, &mut sent, false).unwrap();
    assert_eq!(sent.len(), 2 + KEY_DEF_PAGES + 2);
    // Fn layer is written with command 0x27, not 0x11.
    assert_eq!(sent[1][1], CMD_WRITE_KEY_DEFINITION_AREA_FN);
    // A (key_index 56) -> offset 224 -> page 3, in-page offset 32.
    assert_eq!(sent[2 + 3][32], KEY_DEF_ENTRY_MARKER);
    assert_eq!(sent[2 + 3][34], 0x42);
}

#[test]
fn commit_sends_one_transaction_per_dirty_layer() {
    let mut d = driver();
    let mut sent = Vec::new();
    d.set_keycode(0, 0, 0, 0x0004); // base: Esc -> A
    d.set_keycode(1, 0, 0, 0x0042); // Fn:   Esc -> F9
    commit(&mut d, &mut sent, false).unwrap();
    let txn = 2 + KEY_DEF_PAGES + 2; // 13 frames per layer transaction
    assert_eq!(sent.len(), 2 * txn);
    // Layers committed in order: base (0x11) then Fn (0x27).
    assert_eq!(sent[1][1], CMD_WRITE_KEY_DEFINITION_AREA);
    assert_eq!(sent[txn + 1][1], CMD_WRITE_KEY_DEFINITION_AREA_FN);
}

#[test]
fn commit_skips_when_only_unknown_positions() {
    let mut d = driver();
    let mut sent = Vec::new();
    d.set_keycode(0, 4, 9, 0x0004); // empty matrix cell
    commit(&mut d, &mut sent, false).unwrap();
    assert!(sent.is_empty());
}

#[test]
fn commit_propagates_transport_failure_and_rolls_back() {
    let mut d = driver();
    let mut sent = Vec::new();
    d.set_keycode(0, 0, 0, 0x0004); // Esc -> A (known position)
    assert!(matches!(
        commit(&mut d, &mut sent, true),
        Err(DriverError::Disconnected)
    ));
    // After rollback, the keymap reverts to empty (no prior successful commit).
    assert_eq!(d.get_keycode(0, 0, 0), 0x0000);
}

#[test]
fn rollback_preserves_last_successful_commit() {
    let mut d = driver();
    let mut sent = Vec::new();

    // First commit succeeds: Esc -> A.
    d.set_keycode(0, 0, 0, 0x0004);
    commit(&mut d, &mut sent, false).unwrap();
    assert_eq!(d.get_keycode(0, 0, 0), 0x0004);

    // Let the transport fail and change the key.
    d.set_keycode(0, 0, 0, 0x0005);
    assert_eq!(d.get_keycode(0, 0, 0), 0x0005);

    // Commit fails → rollback.
    assert!(commit(&mut d, &mut sent, true).is_err());
    // Keymap reverts to the last successfully committed value.
    assert_eq!(d.get_keycode(0, 0, 0), 0x0004);
}

#[test]
fn gmk67_descriptor_feature_report_detection() {
    // Report Count 64 (95 40), Report Size 8 (75 08), Feature Var (B1 02).
    let if0 = [0x95u8, 0x40, 0x75, 0x08, 0xB1, 0x02];
    assert!(descriptor_has_feature_report(&if0, 64));
    // No feature item present (just an input report).
    let if1 = [0x95u8, 0x08, 0x75, 0x08, 0x81, 0x02];
    assert!(!descriptor_has_feature_report(&if1, 64));
    // Feature present but smaller than 64.
    let small = [0x95u8, 0x03, 0x75, 0x08, 0xB1, 0x02];
    assert!(!descriptor_has_feature_report(&small, 64));
}

#[test]
fn gmk67_probe_tells_the_interfaces_apart() {
    assert!(probe_vendor_feature_interface(&[0x95, 0x40, 0xB1, 0x02]).is_ok());
    assert!(matches!(
        probe_vendor_feature_interface(&[0x05, 0x01]),
        Err(DriverError::ProtocolViolation { .. })
    ));
}

#[test]
fn key_indices_lead_back_to_their_cells() {
    for row in 0..5u8 {
        for col in 0..15u8 {
            if let Some(ki) = key_index_for(row, col) {
                assert_eq!(find_matrix_pos_for_key_index(ki), Some((row, col)));
            }
        }
    }
    assert_eq!(find_matrix_pos_for_key_index(0), None);
}

#[test]
fn gmk67_lighting_payload_round_trips() {
    let l = Lighting {
        mode: 5,
        r: 1,
        g: 2,
        b: 3,
        brightness: 4,
        speed: 6,
        direction: 7,
        random: true,
    };
    assert_eq!(Lighting::from_bytes(&l.to_bytes()), l);
    assert_eq!(Lighting::from_lighting_state(&l.to_lighting_state()), l);
}

#[test]
fn committed_pages_read_back() {
    let mut d = driver();
    let mut sent = Vec::new();
    d.set_keycode(0, 0, 0, 0x0102);
    d.set_keycode(1, 4, 3, 0x0304);
    commit(&mut d, &mut sent, false).unwrap();

    assert_eq!(keydef_read_command(0), Some(CMD_READ_KEY_DEFINITION_AREA));
    assert_eq!(keydef_read_command(1), Some(CMD_READ_KEY_DEFINITION_AREA_FN));
    assert_eq!(keydef_read_command(2), None);
    let mut fresh = driver();
    let txn = 2 + KEY_DEF_PAGES + 2;
    for step in fresh.sync_eeprom() {
        if let SyncStep::ReadPage { layer, page } = step {
            let data = sent[layer as usize * txn + 2 + page as usize];
            fresh.page_read(layer, page, &data);
        }
    }
    assert!(fresh.sync_finished().is_none());
    assert_eq!(fresh.get_keycode(0, 0, 0), 0x0102);
    assert_eq!(fresh.get_keycode(1, 4, 3), 0x0304);
    assert_eq!(fresh.get_keycode(0, 4, 3), 0);
}

#[test]
fn gmk67_writes_wait_for_a_commit() {
    assert_eq!(Gmk67Driver::new((5, 15), 2, ShadowState::ephemeral()).buffering(), Buffering::Shadowed);
}
