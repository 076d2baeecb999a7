//! Names of keycodes.
//!
//! The table covers the basic keycodes of QMK, which are HID usage ids. Layer
//! taps, mod taps and the like are 16-bit values outside it; they are read and
//! shown in hexadecimal.

use vstd::prelude::*;

use crate::input;
use crate::input::{replace, same, same_ignoring_case, to_upper, trim, without_first};
use crate::text::push_hex;

verus! {

/// One keycode that has a name.
#[derive(Debug)]
pub struct Key {
    pub code: u16,
    /// The canonical name, with its `KC_` in front.
    pub name: &'static str,
    /// The label in a keymap grid.
    pub short: &'static str,
    /// Other spellings; letter case does not matter.
    pub aliases: Vec<&'static str>,
}

/// The number of named keycodes.
pub const COUNT: usize = 147;

/// The named keycodes in ascending order: code, name, grid label, other spellings.
pub const ROWS: [(u16, &'static str, &'static str, [&'static str; 3]); 147] = [
    (0x0000, "KC_NO", "--", ["none", "no", "xxx"]),
    (0x0001, "KC_TRANSPARENT", "TRNS", ["trans", "trns", ""]),
    (0x0004, "KC_A", "A", ["", "", ""]),
    (0x0005, "KC_B", "B", ["", "", ""]),
    (0x0006, "KC_C", "C", ["", "", ""]),
    (0x0007, "KC_D", "D", ["", "", ""]),
    (0x0008, "KC_E", "E", ["", "", ""]),
    (0x0009, "KC_F", "F", ["", "", ""]),
    (0x000a, "KC_G", "G", ["", "", ""]),
    (0x000b, "KC_H", "H", ["", "", ""]),
    (0x000c, "KC_I", "I", ["", "", ""]),
    (0x000d, "KC_J", "J", ["", "", ""]),
    (0x000e, "KC_K", "K", ["", "", ""]),
    (0x000f, "KC_L", "L", ["", "", ""]),
    (0x0010, "KC_M", "M", ["", "", ""]),
    (0x0011, "KC_N", "N", ["", "", ""]),
    (0x0012, "KC_O", "O", ["", "", ""]),
    (0x0013, "KC_P", "P", ["", "", ""]),
    (0x0014, "KC_Q", "Q", ["", "", ""]),
    (0x0015, "KC_R", "R", ["", "", ""]),
    (0x0016, "KC_S", "S", ["", "", ""]),
    (0x0017, "KC_T", "T", ["", "", ""]),
    (0x0018, "KC_U", "U", ["", "", ""]),
    (0x0019, "KC_V", "V", ["", "", ""]),
    (0x001a, "KC_W", "W", ["", "", ""]),
    (0x001b, "KC_X", "X", ["", "", ""]),
    (0x001c, "KC_Y", "Y", ["", "", ""]),
    (0x001d, "KC_Z", "Z", ["", "", ""]),
    (0x001e, "KC_1", "1", ["", "", ""]),
    (0x001f, "KC_2", "2", ["", "", ""]),
    (0x0020, "KC_3", "3", ["", "", ""]),
    (0x0021, "KC_4", "4", ["", "", ""]),
    (0x0022, "KC_5", "5", ["", "", ""]),
    (0x0023, "KC_6", "6", ["", "", ""]),
    (0x0024, "KC_7", "7", ["", "", ""]),
    (0x0025, "KC_8", "8", ["", "", ""]),
    (0x0026, "KC_9", "9", ["", "", ""]),
    (0x0027, "KC_0", "0", ["", "", ""]),
    (0x0028, "KC_ENTER", "ENT", ["ent", "return", ""]),
    (0x0029, "KC_ESCAPE", "ESC", ["esc", "", ""]),
    (0x002a, "KC_BACKSPACE", "BSPC", ["bspc", "", ""]),
    (0x002b, "KC_TAB", "TAB", ["", "", ""]),
    (0x002c, "KC_SPACE", "SPC", ["spc", "", ""]),
    (0x002d, "KC_MINUS", "-", ["mins", "-", ""]),
    (0x002e, "KC_EQUAL", "=", ["eql", "=", ""]),
    (0x002f, "KC_LEFT_BRACKET", "[", ["lbrc", "[", ""]),
    (0x0030, "KC_RIGHT_BRACKET", "]", ["rbrc", "]", ""]),
    (0x0031, "KC_BACKSLASH", "\\", ["bsls", "\\", ""]),
    (0x0032, "KC_NONUS_HASH", "#", ["nuhs", "", ""]),
    (0x0033, "KC_SEMICOLON", ";", ["scln", ";", ""]),
    (0x0034, "KC_QUOTE", "'", ["quot", "'", ""]),
    (0x0035, "KC_GRAVE", "`", ["grv", "`", ""]),
    (0x0036, "KC_COMMA", ",", ["comm", ",", ""]),
    (0x0037, "KC_DOT", ".", [".", "", ""]),
    (0x0038, "KC_SLASH", "/", ["slsh", "/", ""]),
    (0x0039, "KC_CAPS_LOCK", "CAPS", ["caps", "", ""]),
    (0x003a, "KC_F1", "F1", ["", "", ""]),
    (0x003b, "KC_F2", "F2", ["", "", ""]),
    (0x003c, "KC_F3", "F3", ["", "", ""]),
    (0x003d, "KC_F4", "F4", ["", "", ""]),
    (0x003e, "KC_F5", "F5", ["", "", ""]),
    (0x003f, "KC_F6", "F6", ["", "", ""]),
    (0x0040, "KC_F7", "F7", ["", "", ""]),
    (0x0041, "KC_F8", "F8", ["", "", ""]),
    (0x0042, "KC_F9", "F9", ["", "", ""]),
    (0x0043, "KC_F10", "F10", ["", "", ""]),
    (0x0044, "KC_F11", "F11", ["", "", ""]),
    (0x0045, "KC_F12", "F12", ["", "", ""]),
    (0x0046, "KC_PRINT_SCREEN", "PSCR", ["pscr", "prtsc", ""]),
    (0x0047, "KC_SCROLL_LOCK", "SCRL", ["scrl", "", ""]),
    (0x0048, "KC_PAUSE", "PAUS", ["paus", "brk", ""]),
    (0x0049, "KC_INSERT", "INS", ["ins", "", ""]),
    (0x004a, "KC_HOME", "HOME", ["", "", ""]),
    (0x004b, "KC_PAGE_UP", "PGUP", ["pgup", "", ""]),
    (0x004c, "KC_DELETE", "DEL", ["del", "", ""]),
    (0x004d, "KC_END", "END", ["", "", ""]),
    (0x004e, "KC_PAGE_DOWN", "PGDN", ["pgdn", "", ""]),
    (0x004f, "KC_RIGHT", "RGHT", ["rght", "", ""]),
    (0x0050, "KC_LEFT", "LEFT", ["", "", ""]),
    (0x0051, "KC_DOWN", "DOWN", ["", "", ""]),
    (0x0052, "KC_UP", "UP", ["", "", ""]),
    (0x0053, "KC_NUM_LOCK", "NUM", ["num", "", ""]),
    (0x0054, "KC_KP_SLASH", "P/", ["psls", "", ""]),
    (0x0055, "KC_KP_ASTERISK", "P*", ["past", "", ""]),
    (0x0056, "KC_KP_MINUS", "P-", ["pmns", "", ""]),
    (0x0057, "KC_KP_PLUS", "P+", ["ppls", "", ""]),
    (0x0058, "KC_KP_ENTER", "PENT", ["pent", "", ""]),
    (0x0059, "KC_KP_1", "P1", ["", "", ""]),
    (0x005a, "KC_KP_2", "P2", ["", "", ""]),
    (0x005b, "KC_KP_3", "P3", ["", "", ""]),
    (0x005c, "KC_KP_4", "P4", ["", "", ""]),
    (0x005d, "KC_KP_5", "P5", ["", "", ""]),
    (0x005e, "KC_KP_6", "P6", ["", "", ""]),
    (0x005f, "KC_KP_7", "P7", ["", "", ""]),
    (0x0060, "KC_KP_8", "P8", ["", "", ""]),
    (0x0061, "KC_KP_9", "P9", ["", "", ""]),
    (0x0062, "KC_KP_0", "P0", ["", "", ""]),
    (0x0063, "KC_KP_DOT", "P.", ["pdot", "", ""]),
    (0x0064, "KC_NONUS_BACKSLASH", "NUBS", ["nubs", "", ""]),
    (0x0065, "KC_APPLICATION", "APP", ["app", "menu", ""]),
    (0x0067, "KC_KP_EQUAL", "P=", ["peql", "", ""]),
    (0x0068, "KC_F13", "F13", ["", "", ""]),
    (0x0069, "KC_F14", "F14", ["", "", ""]),
    (0x006a, "KC_F15", "F15", ["", "", ""]),
    (0x006b, "KC_F16", "F16", ["", "", ""]),
    (0x006c, "KC_F17", "F17", ["", "", ""]),
    (0x006d, "KC_F18", "F18", ["", "", ""]),
    (0x006e, "KC_F19", "F19", ["", "", ""]),
    (0x006f, "KC_F20", "F20", ["", "", ""]),
    (0x0070, "KC_F21", "F21", ["", "", ""]),
    (0x0071, "KC_F22", "F22", ["", "", ""]),
    (0x0072, "KC_F23", "F23", ["", "", ""]),
    (0x0073, "KC_F24", "F24", ["", "", ""]),
    (0x00a5, "KC_SYSTEM_POWER", "PWR", ["pwr", "", ""]),
    (0x00a6, "KC_SYSTEM_SLEEP", "SLEP", ["slep", "sleep", ""]),
    (0x00a7, "KC_SYSTEM_WAKE", "WAKE", ["wake", "", ""]),
    (0x00a8, "KC_AUDIO_MUTE", "MUTE", ["mute", "", ""]),
    (0x00a9, "KC_AUDIO_VOL_UP", "VOLU", ["volu", "", ""]),
    (0x00aa, "KC_AUDIO_VOL_DOWN", "VOLD", ["vold", "", ""]),
    (0x00ab, "KC_MEDIA_NEXT_TRACK", "MNXT", ["mnxt", "next", ""]),
    (0x00ac, "KC_MEDIA_PREV_TRACK", "MPRV", ["mprv", "prev", ""]),
    (0x00ad, "KC_MEDIA_STOP", "MSTP", ["mstp", "", ""]),
    (0x00ae, "KC_MEDIA_PLAY_PAUSE", "MPLY", ["mply", "play", ""]),
    (0x00af, "KC_MEDIA_SELECT", "MSEL", ["msel", "", ""]),
    (0x00b0, "KC_MEDIA_EJECT", "EJCT", ["ejct", "", ""]),
    (0x00b1, "KC_MAIL", "MAIL", ["", "", ""]),
    (0x00b2, "KC_CALCULATOR", "CALC", ["calc", "", ""]),
    (0x00b3, "KC_MY_COMPUTER", "MYCM", ["mycm", "", ""]),
    (0x00b4, "KC_WWW_SEARCH", "WSCH", ["wsch", "", ""]),
    (0x00b5, "KC_WWW_HOME", "WHOM", ["whom", "", ""]),
    (0x00b6, "KC_WWW_BACK", "WBAK", ["wbak", "", ""]),
    (0x00b7, "KC_WWW_FORWARD", "WFWD", ["wfwd", "", ""]),
    (0x00b8, "KC_WWW_STOP", "WSTP", ["wstp", "", ""]),
    (0x00b9, "KC_WWW_REFRESH", "WREF", ["wref", "", ""]),
    (0x00ba, "KC_WWW_FAVORITES", "WFAV", ["wfav", "", ""]),
    (0x00bb, "KC_MEDIA_FAST_FORWARD", "MFFD", ["mffd", "", ""]),
    (0x00bc, "KC_MEDIA_REWIND", "MRWD", ["mrwd", "", ""]),
    (0x00bd, "KC_BRIGHTNESS_UP", "BRIU", ["briu", "", ""]),
    (0x00be, "KC_BRIGHTNESS_DOWN", "BRID", ["brid", "", ""]),
    (0x00e0, "KC_LEFT_CTRL", "LCTL", ["lctl", "lctrl", ""]),
    (0x00e1, "KC_LEFT_SHIFT", "LSFT", ["lsft", "lshift", ""]),
    (0x00e2, "KC_LEFT_ALT", "LALT", ["lalt", "lopt", ""]),
    (0x00e3, "KC_LEFT_GUI", "LGUI", ["lgui", "lcmd", "lwin"]),
    (0x00e4, "KC_RIGHT_CTRL", "RCTL", ["rctl", "rctrl", ""]),
    (0x00e5, "KC_RIGHT_SHIFT", "RSFT", ["rsft", "rshift", ""]),
    (0x00e6, "KC_RIGHT_ALT", "RALT", ["ralt", "ropt", "algr"]),
    (0x00e7, "KC_RIGHT_GUI", "RGUI", ["rgui", "rcmd", "rwin"]),
];

/// A spelling and not an empty place.
pub open spec fn spelled(alias: &'static str) -> bool {
    alias@.len() > 0
}

/// The other spellings in row `i`.
pub open spec fn aliases(i: int) -> Seq<&'static str> {
    ROWS@[i].3@.filter(|a: &'static str| spelled(a))
}

impl Key {
    /// The key of row `i`.
    pub open spec fn is_row(&self, i: int) -> bool {
        &&& self.code == ROWS@[i].0
        &&& self.name == ROWS@[i].1
        &&& self.short == ROWS@[i].2
        &&& self.aliases@ == aliases(i)
    }
}

/// `word` without a leading `KC_`.
pub open spec fn bare(word: Seq<char>) -> Seq<char> {
    if word.len() >= 3 && word[0] == 'K' && word[1] == 'C' && word[2] == '_' {
        word.skip(3)
    } else {
        word
    }
}

/// `word` is one of the other spellings in row `i`.
pub open spec fn is_alias(i: int, word: Seq<char>) -> bool {
    exists|j: int|
        0 <= j < 3 && spelled(#[trigger] ROWS@[i].3@[j]) && input::same_letters(ROWS@[i].3@[j]@, word)
}

/// `word` is the name in row `i` without its `KC_`, or one of the other spellings.
pub open spec fn is_name(i: int, word: Seq<char>) -> bool {
    bare(ROWS@[i].1@) == word || is_alias(i, word)
}

/// The first row from `i` on with this code.
pub open spec fn first_code(code: u16, i: int) -> Option<int>
    decreases COUNT - i,
{
    if i >= COUNT {
        None
    } else if ROWS@[i].0 == code {
        Some(i)
    } else {
        first_code(code, i + 1)
    }
}

/// The first row from `i` on with `word` among the other spellings.
pub open spec fn first_alias(word: Seq<char>, i: int) -> Option<int>
    decreases COUNT - i,
{
    if i >= COUNT {
        None
    } else if is_alias(i, word) {
        Some(i)
    } else {
        first_alias(word, i + 1)
    }
}

/// The first row from `i` on that `word` names.
pub open spec fn first_name(word: Seq<char>, i: int) -> Option<int>
    decreases COUNT - i,
{
    if i >= COUNT {
        None
    } else if is_name(i, word) {
        Some(i)
    } else {
        first_name(word, i + 1)
    }
}

/// `word` as names are written: in upper case, with underscores, without `KC_`.
pub open spec fn canonical(word: Seq<char>) -> Seq<char> {
    bare(input::replaced(input::uppered(word), '-', '_'))
}

/// The keycode that `s` names. The other spellings come first, since some of them
/// hold a hyphen.
pub open spec fn named(s: Seq<char>) -> Option<u16> {
    match first_alias(input::trimmed(s), 0) {
        Some(i) => Some(ROWS@[i].0),
        None => match first_name(canonical(input::trimmed(s)), 0) {
            Some(i) => Some(ROWS@[i].0),
            None => None,
        },
    }
}

/// `word` is `name` in any letter case, with hyphens allowed for underscores.
pub open spec fn writes(word: Seq<char>, name: Seq<char>) -> bool {
    &&& word.len() == name.len()
    &&& forall|p: int|
        0 <= p < word.len() ==> input::upper(#[trigger] word[p]) == name[p] || (word[p] == '-' && name[p] == '_')
}

/// `word` is a spelling of the key in row `k`: its name, with or without `KC_`, or
/// one of its other spellings, which may have a `KC_` in front too.
pub open spec fn spells(word: Seq<char>, k: int) -> bool {
    ||| writes(word, ROWS@[k].1@)
    ||| writes(word, ROWS@[k].1@.skip(3))
    ||| is_alias(k, word)
    ||| is_alias(k, canonical(word))
}

/// `code` as `0x` and four hexadecimal digits.
pub open spec fn hex_text(code: u16) -> Seq<char> {
    "0x"@ + crate::text::hex(code as nat, 4)
}

/// The key of row `i`.
fn row(i: usize) -> (key: Key)
    requires
        i < COUNT,
    ensures
        key.is_row(i as int),
{
    let mut aliases: Vec<&'static str> = Vec::new();
    let mut j: usize = 0;
    proof {
        assert(ROWS@[i as int].3@.take(0) =~= Seq::<&'static str>::empty());
    }
    while j < 3
        invariant
            i < COUNT,
            j <= 3,
            aliases@ == ROWS@[i as int].3@.take(j as int).filter(|a: &'static str| spelled(a)),
        decreases 3 - j,
    {
        let ghost all = ROWS@[i as int].3@;
        let a: &'static str = ROWS[i].3[j];
        if a.unicode_len() > 0 {
            aliases.push(a);
        }
        proof {
            reveal(Seq::filter);
            assert(all.take(j + 1).drop_last() =~= all.take(j as int));
        }
        j = j + 1;
    }
    proof {
        assert(ROWS@[i as int].3@.take(3) =~= ROWS@[i as int].3@);
    }
    Key { code: ROWS[i].0, name: ROWS[i].1, short: ROWS[i].2, aliases }
}

/// All named keycodes in ascending order.
pub fn all() -> (keys: Vec<Key>)
    ensures
        keys@.len() == COUNT,
        forall|i: int| 0 <= i < COUNT ==> (#[trigger] keys@[i]).is_row(i),
{
    let mut keys: Vec<Key> = Vec::new();
    let mut i: usize = 0;
    while i < COUNT
        invariant
            i <= COUNT,
            keys@.len() == i,
            forall|k: int| 0 <= k < i ==> (#[trigger] keys@[k]).is_row(k),
        decreases COUNT - i,
    {
        keys.push(row(i));
        i = i + 1;
    }
    keys
}

/// Looks a keycode up.
pub fn by_code(code: u16) -> (key: Option<Key>)
    ensures
        match first_code(code, 0) {
            Some(i) => key matches Some(k) && k.is_row(i),
            None => key is None,
        },
{
    let mut i: usize = 0;
    while i < COUNT
        invariant
            i <= COUNT,
            first_code(code, 0) == first_code(code, i as int),
        decreases COUNT - i,
    {
        if ROWS[i].0 == code {
            return Some(row(i));
        }
        i = i + 1;
    }
    None
}

/// Looks for `word` among the other spellings in row `i`.
fn has_alias(i: usize, word: &str) -> (r: bool)
    requires
        i < COUNT,
    ensures
        r == is_alias(i as int, word@),
{
    let mut j: usize = 0;
    while j < 3
        invariant
            i < COUNT,
            j <= 3,
            forall|k: int|
                0 <= k < j ==> !(spelled(#[trigger] ROWS@[i as int].3@[k]) && input::same_letters(
                    ROWS@[i as int].3@[k]@,
                    word@,
                )),
        decreases 3 - j,
    {
        let a: &'static str = ROWS[i].3[j];
        if a.unicode_len() > 0 && same_ignoring_case(a, word) {
            assert(spelled(ROWS@[i as int].3@[j as int]));
            return true;
        }
        j = j + 1;
    }
    false
}

/// Removes a leading `KC_`.
fn without_prefix(word: &str) -> (out: String)
    ensures
        out@ == bare(word@),
{
    if word.unicode_len() >= 3 && word.get_char(0) == 'K' && word.get_char(1) == 'C' && word.get_char(2) == '_' {
        without_first(word, 3)
    } else {
        word.to_owned()
    }
}

/// Reads the name of a key, in any letter case: the canonical name, with or
/// without `KC_` and with hyphens for underscores, or one of the other spellings.
pub fn by_name(s: &str) -> (code: Option<u16>)
    ensures
        code == named(s@),
{
    let raw: String = trim(s);
    let mut i: usize = 0;
    while i < COUNT
        invariant
            raw@ == input::trimmed(s@),
            i <= COUNT,
            first_alias(raw@, 0) == first_alias(raw@, i as int),
        decreases COUNT - i,
    {
        if has_alias(i, raw.as_str()) {
            return Some(ROWS[i].0);
        }
        i = i + 1;
    }
    let upper: String = to_upper(raw.as_str());
    let text: String = replace(upper.as_str(), '-', '_');
    let word: String = without_prefix(text.as_str());
    let mut i: usize = 0;
    while i < COUNT
        invariant
            raw@ == input::trimmed(s@),
            first_alias(raw@, 0) is None,
            word@ == canonical(raw@),
            i <= COUNT,
            first_name(word@, 0) == first_name(word@, i as int),
        decreases COUNT - i,
    {
        let name: String = without_prefix(ROWS[i].1);
        if same(name.as_str(), word.as_str()) || has_alias(i, word.as_str()) {
            return Some(ROWS[i].0);
        }
        i = i + 1;
    }
    None
}

/// `code` as `0x` and four hexadecimal digits.
pub(crate) fn to_hex_text(code: u16) -> (out: String)
    ensures
        out@ == hex_text(code),
{
    let mut out: String = "0x".to_owned();
    push_hex(&mut out, code as u32, 4);
    out
}

/// A keycode with its name, where it has one.
pub open spec fn described(code: u16) -> Seq<char> {
    match first_code(code, 0) {
        Some(i) => ROWS@[i].1@ + " ("@ + hex_text(code) + ")"@,
        None => hex_text(code) + " (no name — quantum keycode?)"@,
    }
}

/// How a keycode is labelled in a keymap grid.
pub open spec fn label(code: u16) -> Seq<char> {
    match first_code(code, 0) {
        Some(i) => ROWS@[i].2@,
        None => hex_text(code),
    }
}

/// A keycode with its name, where it has one.
pub fn describe(code: u16) -> (out: String)
    ensures
        out@ == described(code),
{
    let text: String = to_hex_text(code);
    match by_code(code) {
        Some(k) => k.name.to_owned().concat(" (").concat(text.as_str()).concat(")"),
        None => text.concat(" (no name — quantum keycode?)"),
    }
}

/// The label of a keycode in a keymap grid: short, or the code itself where it has
/// no name.
pub fn short_label(code: u16) -> (out: String)
    ensures
        out@ == label(code),
{
    match by_code(code) {
        Some(k) => k.short.to_owned(),
        None => to_hex_text(code),
    }
}

/// A code is shown as `0x` and four digits.
pub proof fn shown_codes_have_four_digits(code: u16)
    ensures
        hex_text(code).len() == 6,
        hex_text(code)[0] == '0' && hex_text(code)[1] == 'x',
        input::digits_value(hex_text(code).skip(2), 16) == Some(code as nat),
{
    reveal_strlit("0x");
    input::hexadecimals_read_back(code as nat, 4);
    assert(hex_text(code).skip(2) =~= crate::text::hex(code as nat, 4));
}

/// A name is written character by character in upper case, with underscores for
/// hyphens, and loses one `KC_` in front of it.
pub proof fn names_are_written_alike(word: Seq<char>)
    ensures
        ({
            let plain = Seq::new(
                word.len(),
                |i: int|
                    if word[i] == '-' {
                        '_'
                    } else {
                        input::upper(word[i])
                    },
            );
            let prefixed = plain.len() >= 3 && plain[0] == 'K' && plain[1] == 'C' && plain[2] == '_';
            &&& prefixed ==> canonical(word) == plain.skip(3)
            &&& !prefixed ==> canonical(word) == plain
        }),
{
    let plain = Seq::new(
        word.len(),
        |i: int|
            if word[i] == '-' {
                '_'
            } else {
                input::upper(word[i])
            },
    );
    assert(input::replaced(input::uppered(word), '-', '_') =~= plain) by {
        assert forall|i: int| 0 <= i < word.len() implies input::replaced(input::uppered(word), '-', '_')[i]
            == plain[i] by {
            assert(input::uppered(word)[i] == input::upper(word[i]));
        }
    }
}

/// A key is spelled by its name, without `KC_`, or by one of its other spellings,
/// which are the places of its row that are not empty, in any letter case.
pub proof fn keys_are_spelled_by_their_row(i: int, word: Seq<char>)
    requires
        0 <= i < COUNT,
    ensures
        is_alias(i, word) <==> exists|j: int|
            0 <= j < 3 && (#[trigger] ROWS@[i].3@[j])@.len() > 0 && input::lowered(ROWS@[i].3@[j]@) == input::lowered(
                word,
            ),
        is_name(i, word) <==> is_alias(i, word) || bare(ROWS@[i].1@) == word,
{
    if is_alias(i, word) {
        let j = choose|j: int|
            0 <= j < 3 && spelled(#[trigger] ROWS@[i].3@[j]) && input::same_letters(ROWS@[i].3@[j]@, word);
        assert(ROWS@[i].3@[j]@.len() > 0);
    }
    if exists|j: int|
        0 <= j < 3 && (#[trigger] ROWS@[i].3@[j])@.len() > 0 && input::lowered(ROWS@[i].3@[j]@) == input::lowered(word) {
        let j = choose|j: int|
            0 <= j < 3 && (#[trigger] ROWS@[i].3@[j])@.len() > 0 && input::lowered(ROWS@[i].3@[j]@) == input::lowered(
                word,
            );
        assert(spelled(ROWS@[i].3@[j]));
    }
}

} // verus!
