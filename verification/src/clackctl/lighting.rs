//! The lighting commands.

use vstd::prelude::*;

use crate::clackctl::failure;
use crate::clackctl::failure::{unsupported_note, Failure};
use crate::clackctl::parse;
use crate::clackctl::parse::{
    effect_label, parse_color, parse_effect, parse_hex_bytes, parse_level, parse_u8, percent, to_byte_text, EFFECTS,
};
use crate::color;
use crate::color::{hs_to_rgb, rgb_to_hs};
use crate::hal::legacy::{
    VIA_CHANNEL_RGB_MATRIX, VIA_VALUE_BRIGHTNESS, VIA_VALUE_COLOR, VIA_VALUE_EFFECT, VIA_VALUE_SPEED,
};
use crate::input;
use crate::text;
use crate::text::{push_dec, push_hex, push_text};

verus! {

/// What the user asks for.
#[derive(Debug)]
pub enum LightingAction {
    Show,
    Brightness { value: String },
    Effect { effect: String },
    Speed { value: String },
    Color { color: String },
    Off,
    Effects,
    GetRaw { channel: String, value_id: String },
    SetRaw { channel: String, value_id: String, data: String },
}

/// What is to be done.
#[derive(Debug)]
pub enum LightingStep {
    /// Read the values and show them.
    Show,
    /// List the effects.
    List,
    /// Write a value, and say `done`.
    Write { channel: u8, value_id: u8, data: Vec<u8>, done: String },
    /// Read a value and show its bytes.
    Read { channel: u8, value_id: u8 },
}

/// `step` writes `data` to one value of the RGB matrix, and says `done`.
pub open spec fn writes(
    step: Result<LightingStep, String>,
    value_id: u8,
    data: Seq<u8>,
    done: Seq<char>,
) -> bool {
    step matches Ok(LightingStep::Write { channel, value_id: v, data: d, done: said }) && channel
        == VIA_CHANNEL_RGB_MATRIX && v == value_id && d@ == data && said@ == done
}

/// How a level is shown.
pub open spec fn level_text(v: u8) -> Seq<char> {
    text::dec(parse::percentage(v)) + "%"@ + " ("@ + text::dec(v as nat) + "/255)"@
}

/// How a colour is shown.
pub open spec fn color_text(r: int, g: int, b: int, h: int, s: int) -> Seq<char> {
    "#"@ + text::hex(r as nat, 2) + text::hex(g as nat, 2) + text::hex(b as nat, 2) + " (hue "@ + text::dec(h as nat)
        + ", sat "@ + text::dec(s as nat) + ")"@
}

/// How a level is shown.
fn to_level_text(v: u8) -> (out: String)
    ensures
        out@ == level_text(v),
{
    let mut out: String = percent(v).concat(" (");
    push_dec(&mut out, v as u64);
    out.append("/255)");
    out
}

/// How a colour is shown.
fn to_color_text(r: u8, g: u8, b: u8, h: u8, s: u8) -> (out: String)
    ensures
        out@ == color_text(r as int, g as int, b as int, h as int, s as int),
{
    let mut out: String = "#".to_owned();
    push_hex(&mut out, r as u32, 2);
    push_hex(&mut out, g as u32, 2);
    push_hex(&mut out, b as u32, 2);
    out.append(" (hue ");
    push_dec(&mut out, h as u64);
    out.append(", sat ");
    push_dec(&mut out, s as u64);
    out.append(")");
    out
}

/// One byte to write to the RGB matrix.
fn write_byte(value_id: u8, v: u8, done: String) -> (step: LightingStep)
    ensures
        writes(Ok(step), value_id, seq![v], done@),
{
    let mut data: Vec<u8> = Vec::new();
    data.push(v);
    proof {
        assert(data@ =~= seq![v]);
    }
    LightingStep::Write { channel: VIA_CHANNEL_RGB_MATRIX, value_id, data, done }
}

/// The byte that `s` writes, or the reason why it is none.
pub open spec fn byte_of(s: Seq<char>) -> Option<nat> {
    input::number(input::trimmed(s), u8::MAX as nat)
}

/// The complaint about a text that is no byte.
pub open spec fn no_byte(s: Seq<char>) -> Seq<char> {
    parse::quoting("invalid byte '"@, input::trimmed(s), "' (use decimal or 0xHEX)"@)
}

/// What is to be done for a lighting command on device `id`.
pub fn plan_lighting(id: &str, action: &LightingAction) -> (step: Result<LightingStep, String>)
    requires
        action matches LightingAction::SetRaw { channel, value_id, data } ==> byte_of(channel@) is None || byte_of(
            value_id@,
        ) is None || !parse::splits_a_character(data@),
    ensures
        match *action {
            LightingAction::Show => step matches Ok(LightingStep::Show),
            LightingAction::Effects => step matches Ok(LightingStep::List),
            LightingAction::Brightness { value } => exists|level: Result<u8, String>|
                #![trigger parse::reads_level(input::trimmed(value@), level)]
                {
                    &&& parse::reads_level(input::trimmed(value@), level)
                    &&& match level {
                        Ok(v) => writes(
                            step,
                            VIA_VALUE_BRIGHTNESS,
                            seq![v],
                            id@ + ": brightness set to "@ + level_text(v),
                        ),
                        Err(m) => step matches Err(e) && e@ == m@,
                    }
                },
            LightingAction::Speed { value } => exists|level: Result<u8, String>|
                #![trigger parse::reads_level(input::trimmed(value@), level)]
                {
                    &&& parse::reads_level(input::trimmed(value@), level)
                    &&& match level {
                        Ok(v) => writes(
                            step,
                            VIA_VALUE_SPEED,
                            seq![v],
                            id@ + ": effect speed set to "@ + level_text(v),
                        ),
                        Err(m) => step matches Err(e) && e@ == m@,
                    }
                },
            LightingAction::Effect { effect } => match parse::effect(effect@) {
                Some(e) => writes(
                    step,
                    VIA_VALUE_EFFECT,
                    seq![e as u8],
                    id@ + ": effect set to "@ + parse::effect_text(e as u8),
                ),
                None => step matches Err(m) && m@ == parse::quoting(
                    "unknown effect '"@,
                    effect@,
                    "' — see `clackctl lighting <device> effects`"@,
                ),
            },
            LightingAction::Off => writes(
                step,
                VIA_VALUE_EFFECT,
                seq![0u8],
                id@ + ": lighting turned off"@,
            ),
            LightingAction::Color { color } => match parse::color(color@) {
                Some(rgb) => {
                    let (h, s) = color::hs_of(rgb[0], rgb[1], rgb[2]);
                    writes(
                        step,
                        VIA_VALUE_COLOR,
                        seq![h as u8, s as u8],
                        id@ + ": colour set to "@ + color_text(
                            rgb[0] as int,
                            rgb[1] as int,
                            rgb[2] as int,
                            h,
                            s,
                        ),
                    )
                },
                None => step matches Err(m) && m@ == parse::quoting(
                    "unknown colour '"@,
                    color@,
                    "' (use #rrggbb, or one of: "@,
                ) + parse::color_names(10) + ")"@,
            },
            LightingAction::GetRaw { channel, value_id } => match (byte_of(channel@), byte_of(value_id@)) {
                (None, _) => step matches Err(m) && m@ == no_byte(channel@),
                (_, None) => step matches Err(m) && m@ == no_byte(value_id@),
                (Some(c), Some(v)) => step matches Ok(LightingStep::Read { channel: ch, value_id: vid }) && ch == c
                    && vid == v,
            },
            LightingAction::SetRaw { channel, value_id, data } => match (byte_of(channel@), byte_of(value_id@)) {
                (None, _) => step matches Err(m) && m@ == no_byte(channel@),
                (_, None) => step matches Err(m) && m@ == no_byte(value_id@),
                (Some(c), Some(v)) => exists|bytes: Result<Vec<u8>, String>|
                    #![trigger parse::reads_hex(data@, bytes)]
                    {
                        &&& parse::reads_hex(data@, bytes)
                        &&& match bytes {
                            Ok(b) => step matches Ok(
                                LightingStep::Write { channel: ch, value_id: vid, data: d, done },
                            ) && ch == c && vid == v && d@ == b@ && done@ == "ok"@,
                            Err(m) => step matches Err(e) && e@ == m@,
                        }
                    },
            },
        },
{
    match action {
        LightingAction::Show => Ok(LightingStep::Show),
        LightingAction::Effects => Ok(LightingStep::List),
        LightingAction::Brightness { value } => {
            let level: Result<u8, String> = parse_level(value.as_str());
            assert(parse::reads_level(input::trimmed(value@), level));
            match level {
                Ok(v) => {
                    let shown: String = to_level_text(v);
                    let done: String = id.to_owned().concat(": brightness set to ").concat(shown.as_str());
                    Ok(write_byte(VIA_VALUE_BRIGHTNESS, v, done))
                },
                Err(m) => Err(m),
            }
        },
        LightingAction::Speed { value } => {
            let level: Result<u8, String> = parse_level(value.as_str());
            assert(parse::reads_level(input::trimmed(value@), level));
            match level {
                Ok(v) => {
                    let shown: String = to_level_text(v);
                    let done: String = id.to_owned().concat(": effect speed set to ").concat(shown.as_str());
                    Ok(write_byte(VIA_VALUE_SPEED, v, done))
                },
                Err(m) => Err(m),
            }
        },
        LightingAction::Effect { effect } => match parse_effect(effect.as_str()) {
            Ok(e) => {
                let shown: String = effect_label(e);
                let done: String = id.to_owned().concat(": effect set to ").concat(shown.as_str());
                Ok(write_byte(VIA_VALUE_EFFECT, e, done))
            },
            Err(m) => Err(m),
        },
        LightingAction::Off => {
            let done: String = id.to_owned().concat(": lighting turned off");
            Ok(write_byte(VIA_VALUE_EFFECT, 0, done))
        },
        LightingAction::Color { color } => match parse_color(color.as_str()) {
            Ok(rgb) => {
                let (h, s) = rgb_to_hs(rgb[0], rgb[1], rgb[2]);
                let shown: String = to_color_text(rgb[0], rgb[1], rgb[2], h, s);
                let done: String = id.to_owned().concat(": colour set to ").concat(shown.as_str());
                let mut data: Vec<u8> = Vec::new();
                data.push(h);
                data.push(s);
                proof {
                    assert(data@ =~= seq![h, s]);
                }
                Ok(LightingStep::Write { channel: VIA_CHANNEL_RGB_MATRIX, value_id: VIA_VALUE_COLOR, data, done })
            },
            Err(m) => Err(m),
        },
        LightingAction::GetRaw { channel, value_id } => match parse_u8(channel.as_str()) {
            Ok(channel) => match parse_u8(value_id.as_str()) {
                Ok(value_id) => Ok(LightingStep::Read { channel, value_id }),
                Err(m) => Err(m),
            },
            Err(m) => Err(m),
        },
        LightingAction::SetRaw { channel, value_id, data } => match parse_u8(channel.as_str()) {
            Ok(channel) => match parse_u8(value_id.as_str()) {
                Ok(value_id) => {
                    let bytes: Result<Vec<u8>, String> = parse_hex_bytes(data.as_str());
                    assert(parse::reads_hex(data@, bytes));
                    match bytes {
                        Ok(data) => Ok(LightingStep::Write { channel, value_id, data, done: "ok".to_owned() }),
                        Err(m) => Err(m),
                    }
                },
                Err(m) => Err(m),
            },
            Err(m) => Err(m),
        },
    }
}

/// The note below the list of effects.
pub const EFFECTS_NOTE: &'static str = "(names are for the GMK67 family; other keyboards may map ids differently)";

/// The list of effects.
pub fn effect_lines() -> (lines: Vec<String>)
    ensures
        lines@.len() == 20,
        forall|i: int|
            0 <= i < 19 ==> (#[trigger] lines@[i])@ == parse::byte_text(EFFECTS@[i].0) + "  "@ + EFFECTS@[i].1@,
        lines@[19]@ == EFFECTS_NOTE@,
{
    let mut lines: Vec<String> = Vec::new();
    let mut i: usize = 0;
    while i < 19
        invariant
            i <= 19,
            lines@.len() == i,
            forall|k: int|
                0 <= k < i ==> (#[trigger] lines@[k])@ == parse::byte_text(EFFECTS@[k].0) + "  "@ + EFFECTS@[k].1@,
        decreases 19 - i,
    {
        let line: String = to_byte_text(EFFECTS[i].0).concat("  ").concat(EFFECTS[i].1);
        lines.push(line);
        i = i + 1;
    }
    lines.push(EFFECTS_NOTE.to_owned());
    lines
}

/// What a read value shows, `shown` being what the value says if it is long
/// enough.
pub open spec fn reading(r: Result<Vec<u8>, Failure>, long_enough: bool, shown: Seq<char>) -> Seq<char> {
    match r {
        Ok(_) => if long_enough {
            shown
        } else {
            "(empty reply)"@
        },
        Err(e) => failure::noted(e),
    }
}

/// The bytes of a reply, or none.
pub open spec fn bytes_of(r: Result<Vec<u8>, Failure>) -> Seq<u8> {
    match r {
        Ok(v) => v@,
        Err(_) => Seq::empty(),
    }
}

/// What an effect value shows.
pub open spec fn effect_shown(id: u8) -> Seq<char> {
    if id == 0 {
        "off"@
    } else {
        parse::effect_text(id)
    }
}

/// What a colour value shows.
pub open spec fn color_shown(h: u8, s: u8) -> Seq<char> {
    let (r, g, b) = color::rgb_of(h, s);
    color_text(r, g, b, h as int, s as int)
}

/// The lines that show the lighting.
pub open spec fn shown_lighting(
    id: Seq<char>,
    effect: Result<Vec<u8>, Failure>,
    brightness: Result<Vec<u8>, Failure>,
    speed: Result<Vec<u8>, Failure>,
    hue_sat: Result<Vec<u8>, Failure>,
) -> Seq<Seq<char>> {
    let (e, b, s, c) = (bytes_of(effect), bytes_of(brightness), bytes_of(speed), bytes_of(hue_sat));
    seq![
        id + " lighting:"@,
        "  effect:      "@ + reading(effect, e.len() > 0, effect_shown(e[0])),
        "  brightness:  "@ + reading(brightness, b.len() > 0, level_text(b[0])),
        "  speed:       "@ + reading(speed, s.len() > 0, level_text(s[0])),
        "  colour:      "@ + reading(hue_sat, c.len() >= 2, color_shown(c[0], c[1])),
    ]
}

/// What a level value shows.
fn level_reading(r: &Result<Vec<u8>, Failure>) -> (out: String)
    ensures
        out@ == reading(*r, bytes_of(*r).len() > 0, level_text(bytes_of(*r)[0])),
{
    match r {
        Ok(v) => if v.len() > 0 {
            to_level_text(v[0])
        } else {
            "(empty reply)".to_owned()
        },
        Err(e) => unsupported_note(e),
    }
}

/// Shows the lighting, given the four values. Each of them is shown for itself,
/// even if others could not be read.
pub fn lighting_lines(
    id: &str,
    effect: &Result<Vec<u8>, Failure>,
    brightness: &Result<Vec<u8>, Failure>,
    speed: &Result<Vec<u8>, Failure>,
    hue_sat: &Result<Vec<u8>, Failure>,
) -> (lines: Vec<String>)
    ensures
        text::texts(lines@) == shown_lighting(id@, *effect, *brightness, *speed, *hue_sat),
{
    let mut lines: Vec<String> = Vec::new();
    proof {
        assert(text::texts(lines@) =~= Seq::<Seq<char>>::empty());
    }
    push_text(&mut lines, id.to_owned().concat(" lighting:"));
    let shown: String = match effect {
        Ok(v) => if v.len() > 0 {
            if v[0] == 0 {
                "off".to_owned()
            } else {
                effect_label(v[0])
            }
        } else {
            "(empty reply)".to_owned()
        },
        Err(e) => unsupported_note(e),
    };
    push_text(&mut lines, "  effect:      ".to_owned().concat(shown.as_str()));
    let shown: String = level_reading(brightness);
    push_text(&mut lines, "  brightness:  ".to_owned().concat(shown.as_str()));
    let shown: String = level_reading(speed);
    push_text(&mut lines, "  speed:       ".to_owned().concat(shown.as_str()));
    let shown: String = match hue_sat {
        Ok(v) => if v.len() >= 2 {
            let (r, g, b) = hs_to_rgb(v[0], v[1]);
            to_color_text(r, g, b, v[0], v[1])
        } else {
            "(empty reply)".to_owned()
        },
        Err(e) => unsupported_note(e),
    };
    push_text(&mut lines, "  colour:      ".to_owned().concat(shown.as_str()));
    proof {
        assert(text::texts(lines@) =~= shown_lighting(id@, *effect, *brightness, *speed, *hue_sat));
    }
    lines
}

/// A write to the RGB matrix goes to channel 3, with the value, the bytes and the
/// words that are asked of it.
pub proof fn writes_go_to_the_matrix(
    step: Result<LightingStep, String>,
    value_id: u8,
    data: Seq<u8>,
    done: Seq<char>,
)
    requires
        writes(step, value_id, data, done),
    ensures
        step is Ok,
        step->Ok_0 matches LightingStep::Write { channel, value_id: v, data: d, done: said } && channel == 3 && v
            == value_id && d@ == data && said@ == done,
{
}

/// A level is shown as a percentage and as itself, and the percentage is the
/// nearest.
pub proof fn levels_are_shown_twice(v: u8)
    ensures
        level_text(v) == text::dec(parse::percentage(v)) + "% ("@ + text::dec(v as nat) + "/255)"@,
        -127 <= 255 * parse::percentage(v) - 100 * v <= 127,
{
    reveal_strlit("%");
    reveal_strlit(" (");
    reveal_strlit("% (");
    parse::percentages_round_to_nearest(v);
    assert("% ("@ =~= "%"@ + " ("@);
    assert(level_text(v) =~= text::dec(parse::percentage(v)) + "% ("@ + text::dec(v as nat) + "/255)"@);
}

/// A shown color begins with what reads back as the color; hue and saturation
/// follow.
pub proof fn shown_colors_read_back(r: u8, g: u8, b: u8, h: u8, s: u8)
    ensures
        ({
            let t = color_text(r as int, g as int, b as int, h as int, s as int);
            &&& t.len() >= 7
            &&& parse::color(t.take(7)) == Some(seq![r, g, b])
            &&& t.skip(7) == " (hue "@ + text::dec(h as nat) + ", sat "@ + text::dec(s as nat) + ")"@
        }),
{
    reveal_strlit("#");
    input::hexadecimals_read_back(r as nat, 2);
    input::hexadecimals_read_back(g as nat, 2);
    input::hexadecimals_read_back(b as nat, 2);
    parse::written_colors_read_back(r, g, b);
    let t = color_text(r as int, g as int, b as int, h as int, s as int);
    assert(t.take(7) =~= seq!['#'] + text::hex(r as nat, 2) + text::hex(g as nat, 2) + text::hex(b as nat, 2));
    assert(t.skip(7) =~= " (hue "@ + text::dec(h as nat) + ", sat "@ + text::dec(s as nat) + ")"@);
}

/// Each value is shown on its own line, whatever became of the others: the effect
/// by name or as off, the levels, the color that hue and saturation stand for; a
/// value that was not read is noted, and an answer that is too short is called empty.
pub proof fn each_value_has_its_line(
    id: Seq<char>,
    effect: Result<Vec<u8>, Failure>,
    brightness: Result<Vec<u8>, Failure>,
    speed: Result<Vec<u8>, Failure>,
    hue_sat: Result<Vec<u8>, Failure>,
)
    ensures
        ({
            let t = shown_lighting(id, effect, brightness, speed, hue_sat);
            &&& t.len() == 5
            &&& t[0] == id + " lighting:"@
            &&& effect matches Ok(v) ==> t[1] == "  effect:      "@ + if v@.len() == 0 {
                "(empty reply)"@
            } else if v@[0] == 0 {
                "off"@
            } else {
                parse::effect_text(v@[0])
            }
            &&& brightness matches Ok(v) ==> t[2] == "  brightness:  "@ + if v@.len() == 0 {
                "(empty reply)"@
            } else {
                level_text(v@[0])
            }
            &&& speed matches Ok(v) ==> t[3] == "  speed:       "@ + if v@.len() == 0 {
                "(empty reply)"@
            } else {
                level_text(v@[0])
            }
            &&& hue_sat matches Ok(v) ==> t[4] == "  colour:      "@ + if v@.len() < 2 {
                "(empty reply)"@
            } else {
                let (r, g, b) = color::rgb_of(v@[0], v@[1]);
                color_text(r, g, b, v@[0] as int, v@[1] as int)
            }
            &&& effect matches Err(e) ==> t[1] == "  effect:      "@ + failure::noted(e)
            &&& brightness matches Err(e) ==> t[2] == "  brightness:  "@ + failure::noted(e)
            &&& speed matches Err(e) ==> t[3] == "  speed:       "@ + failure::noted(e)
            &&& hue_sat matches Err(e) ==> t[4] == "  colour:      "@ + failure::noted(e)
        }),
{
}

/// A byte is a number up to 255, in decimal or hexadecimal, with white space
/// around it or not; the complaint about any other text quotes it.
pub proof fn bytes_are_numbers(v: u8, s: Seq<char>)
    ensures
        byte_of(parse::byte_text(v)) == Some(v as nat),
        byte_of(s) matches Some(n) ==> n <= 255,
        no_byte(s) == "invalid byte '"@ + input::trimmed(s) + "' (use decimal or 0xHEX)"@,
{
    parse::shown_bytes_read_back(v);
}

} // verus!
