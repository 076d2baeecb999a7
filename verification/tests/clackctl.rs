use clackd::clackctl::device::{
    committed_line, describe_device, event_line, identity_lines, info_lines, list_lines, resolve_by_fragment,
    resolve_device, resolve_exactly, resolve_listed,
};
use clackd::clackctl::failure::{friendly_error, unsupported_note, Failure, FailureKind};
use clackd::clackctl::keymap::{assigned_line, key_lines, layer_lines, shown_layers, LEGEND};
use clackd::clackctl::lighting::{
    effect_lines, lighting_lines, plan_lighting, LightingAction, LightingStep,
};
use clackd::clackctl::macros::{dump_lines, written_line};
use clackd::clackctl::parse::{
    effect_label, has_split_character, parse_color, parse_effect, parse_hex_bytes, parse_key, parse_keycode,
    parse_level, parse_u16, parse_u8, percent, to_hex, COLORS, EFFECTS,
};
use clackd::color::{hs_to_rgb, rgb_to_hs};
use clackd::engine::messages::{DeviceIdentity, DeviceInfo};
use clackd::engine::LifecycleEvent;

#[test]
fn parse_key_prefers_names_over_numbers() {
    // Bare "1" is the number-row key, not raw keycode 0x0001.
    assert_eq!(parse_key("1").unwrap(), 0x001E);
    // Values with no name fall through to numeric parsing.
    assert_eq!(parse_key("76").unwrap(), 76);
    assert_eq!(parse_key("0x004C").unwrap(), 0x004C);
    assert_eq!(parse_key("esc").unwrap(), 0x0029);
    assert!(parse_key("notakey").is_err());
}

#[test]
fn parse_level_accepts_percent_and_raw() {
    assert_eq!(parse_level("0%").unwrap(), 0);
    assert_eq!(parse_level("100%").unwrap(), 255);
    assert_eq!(parse_level("50%").unwrap(), 128);
    assert_eq!(parse_level("255").unwrap(), 255);
    assert_eq!(parse_level("0x80").unwrap(), 0x80);
    assert!(parse_level("101%").is_err());
    assert!(parse_level("256").is_err());
    assert!(parse_level("bright").is_err());
}

#[test]
fn parse_effect_accepts_names_off_and_ids() {
    assert_eq!(parse_effect("static").unwrap(), 0x01);
    assert_eq!(parse_effect("Spectrum Cycle").unwrap(), 0x08);
    assert_eq!(parse_effect("spectrum_cycle").unwrap(), 0x08);
    assert_eq!(parse_effect("off").unwrap(), 0);
    assert_eq!(parse_effect("0x13").unwrap(), 0x13);
    assert!(parse_effect("disco").is_err());
}

#[test]
fn parse_color_accepts_names_and_hex() {
    assert_eq!(parse_color("red").unwrap(), [0xFF, 0x00, 0x00]);
    assert_eq!(parse_color("RED").unwrap(), [0xFF, 0x00, 0x00]);
    assert_eq!(parse_color("#00ff00").unwrap(), [0x00, 0xFF, 0x00]);
    assert_eq!(parse_color("0000ff").unwrap(), [0x00, 0x00, 0xFF]);
    assert!(parse_color("beige").is_err());
    assert!(parse_color("#12345").is_err());
}

#[test]
fn color_round_trips_through_hue_sat() {
    // The integer arithmetic is not exact (green comes back as (3,255,0)), so a
    // colour that is shown after it was set is correct to within a few steps per
    // component.
    for &(name, [r, g, b]) in COLORS.iter().filter(|(n, _)| {
        matches!(*n, "red" | "green" | "blue" | "white")
    }) {
        let (h, s) = rgb_to_hs(r, g, b);
        let (r2, g2, b2) = hs_to_rgb(h, s);
        for (a, b) in [(r, r2), (g, g2), (b, b2)] {
            assert!(a.abs_diff(b) <= 3, "{name}: {a} vs {b} off by more than 3");
        }
    }
}

#[test]
fn parse_hex_bytes_round_trips() {
    assert_eq!(parse_hex_bytes("01ff00").unwrap(), vec![0x01, 0xFF, 0x00]);
    assert_eq!(parse_hex_bytes("0x01FF").unwrap(), vec![0x01, 0xFF]);
    assert!(parse_hex_bytes("abc").is_err());
    assert!(parse_hex_bytes("zz").is_err());
}

#[test]
fn percent_rounds_to_nearest() {
    assert_eq!(percent(255), "100%");
    assert_eq!(percent(0), "0%");
    assert_eq!(percent(128), "50%");
}

#[test]
fn refused_numbers_are_quoted() {
    assert_eq!(parse_u16(" 65536 ").unwrap_err(), "invalid number '65536' (use decimal or 0xHEX)");
    assert_eq!(parse_u8("0x100").unwrap_err(), "invalid byte '0x100' (use decimal or 0xHEX)");
    assert_eq!(parse_keycode("KC_A").unwrap_err(), "invalid keycode 'KC_A' (use decimal or 0xHEX)");
    assert_eq!(
        parse_key(" nope").unwrap_err(),
        "unknown key ' nope' — try a name from `clackctl keys`, or a 0xHEX keycode"
    );
    assert_eq!(parse_u16("0xffff").unwrap(), 0xffff);
    assert_eq!(parse_u16("0XfF").unwrap(), 0xff);
    assert_eq!(parse_u16("+7").unwrap(), 7);
    assert!(parse_u16("").is_err());
    assert!(parse_u16("+").is_err());
    assert!(parse_u16("-1").is_err());
    assert!(parse_u16("0x").is_err());
    assert_eq!(parse_keycode("0x004C").unwrap(), 76);
}

#[test]
fn refused_levels_are_quoted() {
    assert_eq!(parse_level(" x% ").unwrap_err(), "invalid percentage 'x%'");
    assert_eq!(parse_level("101%").unwrap_err(), "percentage out of range '101%' (0%–100%)");
    assert_eq!(parse_level("300").unwrap_err(), "invalid level '300' (use 0–255 or 0%–100%)");
    assert_eq!(parse_level("50 %").unwrap(), 128);
}

#[test]
fn percentages_that_were_set_are_shown() {
    for pct in 0..=100u32 {
        let level = parse_level(&format!("{pct}%")).unwrap();
        assert_eq!(percent(level), format!("{pct}%"));
    }
}

#[test]
fn effects_and_colors_read_back() {
    for (id, name) in EFFECTS {
        assert_eq!(parse_effect(name).unwrap(), id);
        assert_eq!(effect_label(id), format!("{id:#04x} ({name})"));
    }
    assert_eq!(effect_label(0x01), "0x01 (static)");
    assert_eq!(effect_label(0x20), "0x20");
    assert_eq!(effect_label(0x42), "0x42");
    assert_eq!(
        parse_effect("disco").unwrap_err(),
        "unknown effect 'disco' — see `clackctl lighting <device> effects`"
    );
    for (name, rgb) in COLORS {
        assert_eq!(parse_color(name).unwrap(), rgb);
    }
    assert_eq!(
        parse_color("beige").unwrap_err(),
        "unknown colour 'beige' (use #rrggbb, or one of: red, orange, yellow, green, cyan, blue, purple, magenta, pink, white)"
    );
    assert_eq!(parse_color("#1a2B3c").unwrap(), [0x1a, 0x2b, 0x3c]);
}

#[test]
fn refused_hex_data_is_quoted() {
    assert_eq!(parse_hex_bytes(" abc").unwrap_err(), "hex data must have even length, got 'abc'");
    assert_eq!(parse_hex_bytes("0x01zz").unwrap_err(), "invalid hex byte at position 2 in '0x01zz'");
    assert_eq!(parse_hex_bytes("é").unwrap_err(), "invalid hex byte at position 0 in 'é'");
    assert_eq!(parse_hex_bytes("").unwrap(), Vec::<u8>::new());
    assert_eq!(parse_hex_bytes("+f").unwrap(), vec![15]);
    assert!(has_split_character("aéb"));
    assert!(has_split_character("00\u{1F600}"));
    assert!(!has_split_character("zzaéb"));
    assert!(!has_split_character("é"));
    assert!(!has_split_character("0102"));
}

#[test]
fn bytes_are_shown_in_pairs() {
    assert_eq!(to_hex(&[]), "");
    assert_eq!(to_hex(&[0x0a]), "0a");
    assert_eq!(to_hex(&[0x00, 0xff, 0x10]), "00 ff 10");
}

fn ids() -> Vec<String> {
    vec!["hidraw0".to_owned(), "hidraw1".to_owned(), "hidraw10".to_owned()]
}

fn names() -> Vec<String> {
    vec!["GMK67/EK68".to_owned(), "Logitech G915".to_owned(), String::new()]
}

#[test]
fn devices_resolve_by_id_place_and_fragment() {
    assert_eq!(resolve_exactly("hidraw1", &ids()).unwrap(), "hidraw1");
    assert_eq!(resolve_exactly("2", &ids()).unwrap(), "hidraw10");
    assert!(resolve_exactly("3", &ids()).is_none());
    assert_eq!(resolve_device("ek68", &ids(), &names()).unwrap(), "hidraw0");
    assert_eq!(resolve_device("g915", &ids(), &names()).unwrap(), "hidraw1");
    // A full id is not ambiguous, though it is a fragment of another one.
    assert_eq!(resolve_device("hidraw1", &ids(), &names()).unwrap(), "hidraw1");
    assert_eq!(
        resolve_by_fragment("RAW1", &ids(), &names()).unwrap_err(),
        "'RAW1' matches several keyboards: hidraw1, hidraw10 — be more specific"
    );
    assert_eq!(
        resolve_device("moon", &ids(), &names()).unwrap_err(),
        "no keyboard matching 'moon' (available: hidraw0, hidraw1, hidraw10)"
    );
    assert_eq!(
        resolve_device("moon", &[], &[]).unwrap_err(),
        "no keyboard matching 'moon' (available: none connected)"
    );
    assert_eq!(resolve_listed("0", &ids()).unwrap(), "hidraw0");
    assert_eq!(
        resolve_listed("ek68", &ids()).unwrap_err(),
        "no device matching 'ek68' (available: hidraw0, hidraw1, hidraw10)"
    );
}

fn identity() -> DeviceIdentity {
    DeviceIdentity { vendor_id: 0x05ac, product_id: 0x024f, product_name: "EK68".to_owned() }
}

fn info() -> DeviceInfo {
    DeviceInfo { model: String::new(), rows: 5, cols: 15, layer_count: 2 }
}

#[test]
fn devices_are_described() {
    assert_eq!(
        describe_device("hidraw0", &Some(identity()), &Some(info())),
        "hidraw0 — EK68 [05ac:024f], 5×15 keys, 2 layers"
    );
    assert_eq!(describe_device("hidraw0", &None, &Some(info())), "hidraw0");
    let unnamed = DeviceIdentity { product_name: String::new(), ..identity() };
    assert_eq!(
        describe_device("hidraw0", &Some(unnamed), &Some(info())),
        "hidraw0 — unnamed [05ac:024f], 5×15 keys, 2 layers"
    );
    assert_eq!(
        info_lines("hidraw0", &identity(), &info()),
        vec![
            "hidraw0:",
            "  name:    EK68",
            "  usb id:  05ac:024f",
            "  driver:  (unknown)",
            "  matrix:  5 rows × 15 columns",
            "  layers:  2",
        ]
    );
    assert_eq!(
        identity_lines("hidraw0", &identity()),
        vec!["device hidraw0:", "  vendor:   0x05ac", "  product:  0x024f", "  name:     EK68"]
    );
    assert_eq!(list_lines(&["a".to_owned(), "b".to_owned()]), vec!["0: a", "1: b"]);
    assert_eq!(list_lines(&[]), vec!["No keyboards connected (or none that clackd manages)."]);
    assert_eq!(committed_line("hidraw0"), "hidraw0: pending changes saved to the keyboard");
    assert_eq!(event_line(&LifecycleEvent::DeviceAdded("x".to_owned())), "keyboard connected:    x");
    assert_eq!(event_line(&LifecycleEvent::DeviceRemoved("x".to_owned())), "keyboard disconnected: x");
    assert_eq!(event_line(&LifecycleEvent::LayoutUpdated("x".to_owned())), "layout saved:          x");
}

#[test]
fn layers_are_shown_as_grids() {
    let rows = vec![vec![0x0029, 0x5f00], vec![0x0004, 0x0001]];
    assert_eq!(
        layer_lines("hidraw0", 1, 2, &rows),
        vec![
            "hidraw0 layer 1:",
            "          c0     c1",
            "  r0     ESC 0x5f00",
            "  r1       A   TRNS",
            "",
        ]
    );
    assert_eq!(layer_lines("x", 0, 1, &vec![]), vec!["x layer 0:", "      c0", ""]);
    assert_eq!(shown_layers(Some(7), 2), vec![7]);
    assert_eq!(shown_layers(None, 3), vec![0, 1, 2]);
    assert_eq!(LEGEND, "-- = no key assigned · TRNS = falls through to the layer below");
    assert_eq!(
        assigned_line("hidraw0", 0, 2, 5, 0x004c),
        "hidraw0: layer 0, row 2, col 5 ← KC_DELETE (0x004c)"
    );
}

#[test]
fn key_names_are_listed_and_filtered() {
    let lines = key_lines(None);
    assert_eq!(lines.len(), 147);
    assert_eq!(lines[0], "0x0000  KC_NO  (also: none, no, xxx)");
    assert_eq!(lines[2], "0x0004  KC_A");
    assert_eq!(key_lines(Some("LWIN")), vec!["0x00e3  KC_LEFT_GUI  (also: lgui, lcmd, lwin)"]);
    assert_eq!(
        key_lines(Some("moon")),
        vec!["No key names match — try `clackctl keys` for the full list."]
    );
}

fn method(name: &str, detail: Option<&str>) -> Failure {
    Failure {
        kind: FailureKind::Method { name: name.to_owned(), detail: detail.map(str::to_owned) },
        text: "in its own words".to_owned(),
    }
}

#[test]
fn failures_are_told_in_plain_words() {
    let fdo = "org.freedesktop.DBus.Error.";
    let cases = [
        ("NotSupported", "this keyboard cannot do that: d"),
        ("UnknownObject", "keyboard not found: d (see `clackctl list`)"),
        ("AccessDenied", "access denied: d (check the udev uaccess rule for /dev/hidraw*)"),
        ("ServiceUnknown", "clackd is not running on the session bus — start it and retry"),
        ("Failed", "d [org.freedesktop.DBus.Error.Failed]"),
    ];
    for (name, told) in cases {
        assert_eq!(friendly_error(&method(&format!("{fdo}{name}"), Some("d"))), told);
    }
    assert_eq!(
        friendly_error(&method(&format!("{fdo}Failed"), None)),
        "no detail [org.freedesktop.DBus.Error.Failed]"
    );
    let other = Failure { kind: FailureKind::Other, text: "boom".to_owned() };
    assert_eq!(friendly_error(&other), "boom");
    assert_eq!(unsupported_note(&other), "read failed (boom)");
    let missing = Failure { kind: FailureKind::InterfaceNotFound, text: String::new() };
    assert_eq!(
        friendly_error(&missing),
        "clackd does not expose the expected interface — version mismatch between clackctl and clackd?"
    );
    assert_eq!(
        unsupported_note(&method(&format!("{fdo}NotSupported"), None)),
        "not supported by this keyboard"
    );
}

fn planned(action: LightingAction) -> (u8, u8, Vec<u8>, String) {
    match plan_lighting("kb", &action).unwrap() {
        LightingStep::Write { channel, value_id, data, done } => (channel, value_id, data, done),
        other => panic!("expected a write, got {other:?}"),
    }
}

#[test]
fn lighting_commands_become_writes() {
    assert_eq!(
        planned(LightingAction::Brightness { value: "80%".to_owned() }),
        (3, 1, vec![204], "kb: brightness set to 80% (204/255)".to_owned())
    );
    assert_eq!(
        planned(LightingAction::Speed { value: "255".to_owned() }),
        (3, 3, vec![255], "kb: effect speed set to 100% (255/255)".to_owned())
    );
    assert_eq!(
        planned(LightingAction::Effect { effect: "rain".to_owned() }),
        (3, 2, vec![5], "kb: effect set to 0x05 (rain)".to_owned())
    );
    assert_eq!(planned(LightingAction::Off), (3, 2, vec![0], "kb: lighting turned off".to_owned()));
    assert_eq!(
        planned(LightingAction::Color { color: "red".to_owned() }),
        (3, 4, vec![0, 255], "kb: colour set to #ff0000 (hue 0, sat 255)".to_owned())
    );
    assert_eq!(
        planned(LightingAction::SetRaw {
            channel: "2".to_owned(),
            value_id: "0x05".to_owned(),
            data: "AABB".to_owned(),
        }),
        (2, 5, vec![0xaa, 0xbb], "ok".to_owned())
    );
    assert!(matches!(
        plan_lighting("kb", &LightingAction::GetRaw { channel: "1".to_owned(), value_id: "9".to_owned() }),
        Ok(LightingStep::Read { channel: 1, value_id: 9 })
    ));
    assert!(matches!(plan_lighting("kb", &LightingAction::Show), Ok(LightingStep::Show)));
    assert!(matches!(plan_lighting("kb", &LightingAction::Effects), Ok(LightingStep::List)));
    let bad = LightingAction::GetRaw { channel: "999".to_owned(), value_id: "x".to_owned() };
    assert_eq!(
        plan_lighting("kb", &bad).unwrap_err(),
        "invalid byte '999' (use decimal or 0xHEX)"
    );
}

#[test]
fn each_lighting_value_is_shown_for_itself() {
    let unsupported = || Err(method("org.freedesktop.DBus.Error.NotSupported", None));
    assert_eq!(
        lighting_lines("kb", &Ok(vec![0]), &Ok(vec![128]), &unsupported(), &Ok(vec![0, 255])),
        vec![
            "kb lighting:",
            "  effect:      off",
            "  brightness:  50% (128/255)",
            "  speed:       not supported by this keyboard",
            "  colour:      #ff0000 (hue 0, sat 255)",
        ]
    );
    let failed = Err(Failure { kind: FailureKind::Other, text: "boom".to_owned() });
    assert_eq!(
        lighting_lines("kb", &Ok(vec![7]), &Ok(vec![]), &failed, &Ok(vec![1])),
        vec![
            "kb lighting:",
            "  effect:      0x07 (breathing)",
            "  brightness:  (empty reply)",
            "  speed:       read failed (boom)",
            "  colour:      (empty reply)",
        ]
    );
    let effects = effect_lines();
    assert_eq!(effects.len(), 20);
    assert_eq!(effects[0], "0x01  static");
    assert_eq!(effects[18], "0x13  back-and-forth");
    assert_eq!(
        effects[19],
        "(names are for the GMK67 family; other keyboards may map ids differently)"
    );
}

#[test]
fn macro_storage_is_dumped() {
    let mut data: Vec<u8> = b"Hello, World!".to_vec();
    data.extend_from_slice(&[0x00, 0x7f, 0x80, 0x20]);
    assert_eq!(
        dump_lines(0x0010, &data),
        vec![
            "0010  48 65 6c 6c 6f 2c 20 57 6f 72 6c 64 21 00 7f 80   |Hello, World!...|",
            "0020  20                                                | |",
        ]
    );
    assert!(dump_lines(0, &[]).is_empty());
    assert_eq!(dump_lines(0xffff, &[0u8; 17])[1], "1000f  00                                                |.|");
    assert_eq!(written_line("kb", 5, 0x1f), "kb: wrote 5 bytes at offset 0x001f");
}
