//! What the command line's arguments mean.

use vstd::prelude::*;

use crate::clackctl::keycodes;
use crate::clackctl::keycodes::by_name;
use crate::input;
use crate::input::{
    has_hex_prefix, parse_any_number, parse_number, replace, same, same_ignoring_case, to_lower, trim, without_first,
};
use crate::text::{chars_of, push_dec};

verus! {

/// Effect names of the GMK67 family. Other keyboards may count their effects
/// differently; numbers are accepted everywhere.
pub const EFFECTS: [(u8, &'static str); 19] = [
    (0x01, "static"),
    (0x02, "keystroke-light-up"),
    (0x03, "keystroke-dim"),
    (0x04, "sparkle"),
    (0x05, "rain"),
    (0x06, "random-colors"),
    (0x07, "breathing"),
    (0x08, "spectrum-cycle"),
    (0x09, "ring-gradient"),
    (0x0a, "vertical-gradient"),
    (0x0b, "rainbow-wave"),
    (0x0c, "around-edges"),
    (0x0d, "keystroke-horizontal-lines"),
    (0x0e, "keystroke-tilted-lines"),
    (0x0f, "keystroke-ripples"),
    (0x10, "sequence"),
    (0x11, "wave-line"),
    (0x12, "tilted-lines"),
    (0x13, "back-and-forth"),
];

/// Named colours.
pub const COLORS: [(&'static str, [u8; 3]); 10] = [
    ("red", [0xff, 0x00, 0x00]),
    ("orange", [0xff, 0x80, 0x00]),
    ("yellow", [0xff, 0xff, 0x00]),
    ("green", [0x00, 0xff, 0x00]),
    ("cyan", [0x00, 0xff, 0xff]),
    ("blue", [0x00, 0x00, 0xff]),
    ("purple", [0x80, 0x00, 0xff]),
    ("magenta", [0xff, 0x00, 0xff]),
    ("pink", [0xff, 0x69, 0xb4]),
    ("white", [0xff, 0xff, 0xff]),
];

/// The message that quotes `s` between `before` and `after`.
pub open spec fn quoting(before: Seq<char>, s: Seq<char>, after: Seq<char>) -> Seq<char> {
    before + s + after
}

/// A message that quotes `s`.
fn quote(before: &str, s: &str, after: &str) -> (out: String)
    ensures
        out@ == quoting(before@, s@, after@),
{
    before.to_owned().concat(s).concat(after)
}

/// Reads a 16-bit number, in decimal or in hexadecimal after `0x`.
pub fn parse_u16(s: &str) -> (r: Result<u16, String>)
    ensures
        match input::number(input::trimmed(s@), u16::MAX as nat) {
            Some(n) => r == Ok::<u16, String>(n as u16),
            None => r matches Err(m) && m@ == quoting(
                "invalid number '"@,
                input::trimmed(s@),
                "' (use decimal or 0xHEX)"@,
            ),
        },
{
    let t: String = trim(s);
    match parse_any_number(t.as_str(), 0xffff) {
        Some(n) => Ok(n as u16),
        None => Err(quote("invalid number '", t.as_str(), "' (use decimal or 0xHEX)")),
    }
}

/// Reads a keycode as a number, in decimal or in hexadecimal after `0x`.
pub fn parse_keycode(s: &str) -> (r: Result<u16, String>)
    ensures
        match input::number(input::trimmed(s@), u16::MAX as nat) {
            Some(n) => r == Ok::<u16, String>(n as u16),
            None => r matches Err(m) && m@ == quoting(
                "invalid keycode '"@,
                input::trimmed(s@),
                "' (use decimal or 0xHEX)"@,
            ),
        },
{
    let t: String = trim(s);
    match parse_any_number(t.as_str(), 0xffff) {
        Some(n) => Ok(n as u16),
        None => Err(quote("invalid keycode '", t.as_str(), "' (use decimal or 0xHEX)")),
    }
}

/// Reads a byte, in decimal or in hexadecimal after `0x`.
pub fn parse_u8(s: &str) -> (r: Result<u8, String>)
    ensures
        match input::number(input::trimmed(s@), u8::MAX as nat) {
            Some(n) => r == Ok::<u8, String>(n as u8),
            None => r matches Err(m) && m@ == quoting(
                "invalid byte '"@,
                input::trimmed(s@),
                "' (use decimal or 0xHEX)"@,
            ),
        },
{
    let t: String = trim(s);
    match parse_any_number(t.as_str(), 0xff) {
        Some(n) => Ok(n as u8),
        None => Err(quote("invalid byte '", t.as_str(), "' (use decimal or 0xHEX)")),
    }
}

/// Reads a key: its name or, failing that, its code. Names come first, so a bare
/// digit is a key of the number row.
pub fn parse_key(s: &str) -> (r: Result<u16, String>)
    ensures
        match keycodes::named(s@) {
            Some(code) => r == Ok::<u16, String>(code),
            None => match input::number(input::trimmed(s@), u16::MAX as nat) {
                Some(n) => r == Ok::<u16, String>(n as u16),
                None => r matches Err(m) && m@ == quoting(
                    "unknown key '"@,
                    s@,
                    "' — try a name from `clackctl keys`, or a 0xHEX keycode"@,
                ),
            },
        },
{
    if let Some(code) = by_name(s) {
        return Ok(code);
    }
    match parse_u16(s) {
        Ok(n) => Ok(n),
        Err(_) => Err(
            quote("unknown key '", s, "' — try a name from `clackctl keys`, or a 0xHEX keycode"),
        ),
    }
}

/// `pct` percent of 255, rounded to the nearest integer.
pub open spec fn scaled(pct: nat) -> nat {
    (pct * 255 + 50) / 100
}

/// `r` is how the level `t` reads: a percentage, or a number up to 255.
pub open spec fn reads_level(t: Seq<char>, r: Result<u8, String>) -> bool {
    if t.len() > 0 && t.last() == '%' {
        match input::numeral(input::trimmed(t.drop_last()), 10, u16::MAX as nat) {
            None => r matches Err(m) && m@ == quoting("invalid percentage '"@, t, "'"@),
            Some(pct) => if pct > 100 {
                r matches Err(m) && m@ == quoting("percentage out of range '"@, t, "' (0%–100%)"@)
            } else {
                r matches Ok(v) && v == scaled(pct)
            },
        }
    } else {
        match input::number(t, u8::MAX as nat) {
            Some(n) => r matches Ok(v) && v == n,
            None => r matches Err(m) && m@ == quoting(
                "invalid level '"@,
                t,
                "' (use 0–255 or 0%–100%)"@,
            ),
        }
    }
}

/// The text without its last character.
fn without_last(s: &str) -> (out: String)
    requires
        s@.len() > 0,
    ensures
        out@ == s@.drop_last(),
{
    let chars: Vec<char> = chars_of(s);
    let n: usize = chars.len() - 1;
    let mut out: String = String::new();
    let mut i: usize = 0;
    while i < n
        invariant
            chars@ == s@,
            n == s@.len() - 1,
            i <= n,
            out@ == s@.take(i as int),
        decreases n - i,
    {
        out.push(chars[i]);
        proof {
            assert(s@.take(i + 1) =~= s@.take(i as int).push(s@[i as int]));
        }
        i = i + 1;
    }
    proof {
        assert(s@.take(n as int) =~= s@.drop_last());
    }
    out
}

/// Reads a brightness or speed: a percentage, or a number up to 255.
pub fn parse_level(s: &str) -> (r: Result<u8, String>)
    ensures
        reads_level(input::trimmed(s@), r),
{
    let t: String = trim(s);
    let n: usize = t.as_str().unicode_len();
    if n > 0 && t.as_str().get_char(n - 1) == '%' {
        let digits: String = without_last(t.as_str());
        let digits: String = trim(digits.as_str());
        return match parse_number(digits.as_str(), 10, 0xffff) {
            None => Err(quote("invalid percentage '", t.as_str(), "'")),
            Some(pct) => if pct > 100 {
                Err(quote("percentage out of range '", t.as_str(), "' (0%–100%)"))
            } else {
                Ok(((pct * 255 + 50) / 100) as u8)
            },
        };
    }
    match parse_any_number(t.as_str(), 0xff) {
        Some(v) => Ok(v as u8),
        None => Err(quote("invalid level '", t.as_str(), "' (use 0–255 or 0%–100%)")),
    }
}

/// An effect name as the table writes it: in lower case, with hyphens.
pub open spec fn effect_word(s: Seq<char>) -> Seq<char> {
    input::replaced(input::replaced(input::lowered(input::trimmed(s)), ' ', '-'), '_', '-')
}

/// The first effect from place `i` on with this name.
pub open spec fn effect_named(word: Seq<char>, i: int) -> Option<u8>
    decreases 19 - i,
{
    if i >= 19 {
        None
    } else if EFFECTS@[i].1@ == word {
        Some(EFFECTS@[i].0)
    } else {
        effect_named(word, i + 1)
    }
}

/// The name of the first effect from place `i` on with this number.
pub open spec fn effect_name(id: u8, i: int) -> Option<&'static str>
    decreases 19 - i,
{
    if i >= 19 {
        None
    } else if EFFECTS@[i].0 == id {
        Some(EFFECTS@[i].1)
    } else {
        effect_name(id, i + 1)
    }
}

/// The number of the effect that `s` names or writes.
pub open spec fn effect(s: Seq<char>) -> Option<nat> {
    if effect_word(s) == "off"@ {
        Some(0)
    } else {
        match effect_named(effect_word(s), 0) {
            Some(id) => Some(id as nat),
            None => input::number(input::trimmed(s), u8::MAX as nat),
        }
    }
}

/// Reads an effect: its name, `off`, or its number.
pub fn parse_effect(s: &str) -> (r: Result<u8, String>)
    ensures
        match effect(s@) {
            Some(id) => r == Ok::<u8, String>(id as u8) && id <= 255,
            None => r matches Err(m) && m@ == quoting(
                "unknown effect '"@,
                s@,
                "' — see `clackctl lighting <device> effects`"@,
            ),
        },
{
    let word: String = to_lower(trim(s).as_str());
    let word: String = replace(word.as_str(), ' ', '-');
    let word: String = replace(word.as_str(), '_', '-');
    if same(word.as_str(), "off") {
        return Ok(0);
    }
    let mut i: usize = 0;
    while i < 19
        invariant
            i <= 19,
            word@ == effect_word(s@),
            word@ != "off"@,
            effect_named(word@, 0) == effect_named(word@, i as int),
        decreases 19 - i,
    {
        if same(EFFECTS[i].1, word.as_str()) {
            return Ok(EFFECTS[i].0);
        }
        i = i + 1;
    }
    match parse_u8(s) {
        Ok(id) => Ok(id),
        Err(_) => Err(quote("unknown effect '", s, "' — see `clackctl lighting <device> effects`")),
    }
}

/// `id` as `0x` and two hexadecimal digits.
pub open spec fn byte_text(id: u8) -> Seq<char> {
    "0x"@ + crate::text::hex(id as nat, 2)
}

/// `id` as `0x` and two hexadecimal digits.
pub(crate) fn to_byte_text(id: u8) -> (out: String)
    ensures
        out@ == byte_text(id),
{
    let mut out: String = "0x".to_owned();
    crate::text::push_hex(&mut out, id as u32, 2);
    out
}

/// How an effect is shown.
pub open spec fn effect_text(id: u8) -> Seq<char> {
    match effect_name(id, 0) {
        Some(name) => byte_text(id) + " ("@ + name@ + ")"@,
        None => byte_text(id),
    }
}

/// An effect's number with its name behind it, or its number alone.
pub fn effect_label(id: u8) -> (out: String)
    ensures
        out@ == effect_text(id),
{
    let number: String = to_byte_text(id);
    let mut i: usize = 0;
    while i < 19
        invariant
            i <= 19,
            number@ == byte_text(id),
            effect_name(id, 0) == effect_name(id, i as int),
        decreases 19 - i,
    {
        if EFFECTS[i].0 == id {
            return number.concat(" (").concat(EFFECTS[i].1).concat(")");
        }
        i = i + 1;
    }
    number
}

/// The first colour from place `i` on with this name, in any letter case.
pub open spec fn color_named(word: Seq<char>, i: int) -> Option<Seq<u8>>
    decreases 10 - i,
{
    if i >= 10 {
        None
    } else if input::same_letters(COLORS@[i].0@, word) {
        Some(COLORS@[i].1@)
    } else {
        color_named(word, i + 1)
    }
}

/// `s` without a leading `#`.
pub open spec fn without_hash(s: Seq<char>) -> Seq<char> {
    if s.len() > 0 && s[0] == '#' {
        s.skip(1)
    } else {
        s
    }
}

/// Red, green and blue of a 24-bit number.
pub open spec fn components(v: nat) -> Seq<u8> {
    seq![(v / 65536 % 256) as u8, (v / 256 % 256) as u8, (v % 256) as u8]
}

/// The colour that `s` names or writes.
pub open spec fn color(s: Seq<char>) -> Option<Seq<u8>> {
    let raw = input::trimmed(s);
    match color_named(raw, 0) {
        Some(rgb) => Some(rgb),
        None => if without_hash(raw).len() == 6 {
            match input::numeral(without_hash(raw), 16, u32::MAX as nat) {
                Some(v) => Some(components(v)),
                None => None,
            }
        } else {
            None
        },
    }
}

/// The first `n` colour names, separated by commas.
pub open spec fn color_names(n: int) -> Seq<char>
    decreases n,
{
    if n <= 0 {
        Seq::empty()
    } else if n == 1 {
        COLORS@[0].0@
    } else {
        color_names(n - 1) + ", "@ + COLORS@[n - 1].0@
    }
}

/// Reads a colour: a name, or six hexadecimal digits with or without `#`.
pub fn parse_color(s: &str) -> (r: Result<[u8; 3], String>)
    ensures
        match color(s@) {
            Some(rgb) => r matches Ok(c) && c@ == rgb,
            None => r matches Err(m) && m@ == quoting(
                "unknown colour '"@,
                s@,
                "' (use #rrggbb, or one of: "@,
            ) + color_names(10) + ")"@,
        },
{
    let raw: String = trim(s);
    let mut i: usize = 0;
    while i < 10
        invariant
            i <= 10,
            raw@ == input::trimmed(s@),
            color_named(raw@, 0) == color_named(raw@, i as int),
        decreases 10 - i,
    {
        if same_ignoring_case(COLORS[i].0, raw.as_str()) {
            return Ok(COLORS[i].1);
        }
        i = i + 1;
    }
    let n: usize = raw.as_str().unicode_len();
    let hex: String = if n > 0 && raw.as_str().get_char(0) == '#' {
        without_first(raw.as_str(), 1)
    } else {
        raw
    };
    if hex.as_str().unicode_len() == 6 {
        if let Some(v) = parse_number(hex.as_str(), 16, 0xffff_ffff) {
            let rgb: [u8; 3] = [(v / 65536 % 256) as u8, (v / 256 % 256) as u8, (v % 256) as u8];
            proof {
                assert(rgb@ =~= components(v as nat));
            }
            return Ok(rgb);
        }
    }
    let mut out: String = quote("unknown colour '", s, "' (use #rrggbb, or one of: ");
    out.append(COLORS[0].0);
    let ghost start = quoting("unknown colour '"@, s@, "' (use #rrggbb, or one of: "@);
    let mut i: usize = 1;
    while i < 10
        invariant
            1 <= i <= 10,
            out@ == start + color_names(i as int),
        decreases 10 - i,
    {
        out.append(", ");
        out.append(COLORS[i].0);
        proof {
            assert(out@ =~= start + color_names(i + 1));
        }
        i = i + 1;
    }
    out.append(")");
    Err(out)
}

/// How many bytes UTF-8 takes for a character.
pub open spec fn width(c: char) -> nat {
    if (c as u32) < 0x80 {
        1
    } else if (c as u32) < 0x800 {
        2
    } else if (c as u32) < 0x10000 {
        3
    } else {
        4
    }
}

/// How many bytes UTF-8 takes for a text.
pub open spec fn byte_len(s: Seq<char>) -> nat
    decreases s.len(),
{
    if s.len() == 0 {
        0
    } else {
        byte_len(s.drop_last()) + width(s.last())
    }
}

/// The byte that two digits write.
pub open spec fn pair_value(a: char, b: char) -> Option<nat> {
    input::numeral(seq![a, b], 16, 255)
}

/// The text of hexadecimal data.
pub open spec fn hex_part(s: Seq<char>) -> Seq<char> {
    match input::after_hex_prefix(input::trimmed(s)) {
        Some(digits) => digits,
        None => input::trimmed(s),
    }
}

/// Taken two bytes at a time from character `i` on, the text has a pair that ends
/// inside a character, and all pairs before it write bytes.
pub open spec fn splits_from(s: Seq<char>, i: int) -> bool
    decreases s.len() - i,
{
    if i >= s.len() {
        false
    } else if width(s[i]) > 1 {
        width(s[i]) > 2
    } else if i + 1 >= s.len() {
        false
    } else if width(s[i + 1]) > 1 {
        true
    } else {
        pair_value(s[i], s[i + 1]) is Some && splits_from(s, i + 2)
    }
}

/// Hexadecimal data that cannot be taken two bytes at a time.
pub open spec fn splits_a_character(s: Seq<char>) -> bool {
    byte_len(hex_part(s)) % 2 == 0 && splits_from(hex_part(s), 0)
}

/// The position of the first pair from `i` on that writes no byte.
pub open spec fn bad_pair(s: Seq<char>, i: int) -> Option<int>
    decreases s.len() - i,
{
    if i >= s.len() {
        None
    } else if width(s[i]) > 1 || i + 1 >= s.len() || pair_value(s[i], s[i + 1]) is None {
        Some(i)
    } else {
        bad_pair(s, i + 2)
    }
}

/// The bytes that the first `n` pairs write.
pub open spec fn pair_bytes(s: Seq<char>, n: nat) -> Seq<u8> {
    Seq::new(n, |k: int| pair_value(s[2 * k], s[2 * k + 1])->0 as u8)
}

/// `r` is how the data `s` reads.
pub open spec fn reads_hex(s: Seq<char>, r: Result<Vec<u8>, String>) -> bool {
    if byte_len(hex_part(s)) % 2 != 0 {
        r matches Err(m) && m@ == quoting("hex data must have even length, got '"@, input::trimmed(s), "'"@)
    } else {
        match bad_pair(hex_part(s), 0) {
            Some(i) => r matches Err(m) && m@ == "invalid hex byte at position "@ + crate::text::dec(i as nat)
                + quoting(" in '"@, input::trimmed(s), "'"@),
            None => r matches Ok(data) && data@ == pair_bytes(hex_part(s), hex_part(s).len() / 2),
        }
    }
}

/// How many bytes UTF-8 takes for a character.
fn width_of(c: char) -> (w: u32)
    ensures
        w == width(c),
{
    let n: u32 = c as u32;
    if n < 0x80 {
        1
    } else if n < 0x800 {
        2
    } else if n < 0x10000 {
        3
    } else {
        4
    }
}

/// The byte that two digits write.
fn value_of_pair(a: char, b: char) -> (v: Option<u8>)
    ensures
        match pair_value(a, b) {
            Some(n) => v == Some(n as u8) && n <= 255,
            None => v is None,
        },
{
    let mut s: String = String::new();
    s.push(a);
    s.push(b);
    proof {
        assert(s@ =~= seq![a, b]);
    }
    match parse_number(s.as_str(), 16, 255) {
        Some(n) => Some(n as u8),
        None => None,
    }
}

/// Hexadecimal data without its prefix.
fn hex_text_of(t: &str) -> (out: String)
    ensures
        out@ == match input::after_hex_prefix(t@) {
            Some(digits) => digits,
            None => t@,
        },
{
    if has_hex_prefix(t) {
        without_first(t, 2)
    } else {
        t.to_owned()
    }
}

/// The number of bytes of a text is even.
fn even_bytes(chars: &Vec<char>) -> (even: bool)
    ensures
        even == (byte_len(chars@) % 2 == 0),
{
    let mut even: bool = true;
    let mut i: usize = 0;
    proof {
        assert(chars@.take(0) =~= Seq::<char>::empty());
    }
    while i < chars.len()
        invariant
            i <= chars@.len(),
            even == (byte_len(chars@.take(i as int)) % 2 == 0),
        decreases chars@.len() - i,
    {
        proof {
            assert(chars@.take(i + 1).drop_last() =~= chars@.take(i as int));
        }
        if width_of(chars[i]) % 2 == 1 {
            even = !even;
        }
        i = i + 1;
    }
    proof {
        assert(chars@.take(i as int) =~= chars@);
    }
    even
}

/// Tells hexadecimal data that cannot be taken two bytes at a time.
pub fn has_split_character(s: &str) -> (r: bool)
    ensures
        r == splits_a_character(s@),
{
    let t: String = trim(s);
    let hex: String = hex_text_of(t.as_str());
    let chars: Vec<char> = chars_of(hex.as_str());
    let n: usize = chars.len();
    if !even_bytes(&chars) {
        return false;
    }
    let mut i: usize = 0;
    while i < n
        invariant
            n == chars@.len(),
            chars@ == hex_part(s@),
            byte_len(hex_part(s@)) % 2 == 0,
            i <= n + 1,
            splits_from(chars@, 0) == splits_from(chars@, i as int),
        decreases n + 2 - i,
    {
        let w: u32 = width_of(chars[i]);
        if w > 1 {
            return w > 2;
        }
        if i == n - 1 {
            return false;
        }
        if width_of(chars[i + 1]) > 1 {
            return true;
        }
        if value_of_pair(chars[i], chars[i + 1]).is_none() {
            return false;
        }
        i = i + 2;
    }
    false
}

/// A text of one-byte characters has as many bytes as characters.
proof fn narrow_bytes(s: Seq<char>)
    requires
        forall|i: int| 0 <= i < s.len() ==> width(#[trigger] s[i]) == 1,
    ensures
        byte_len(s) == s.len(),
    decreases s.len(),
{
    if s.len() > 0 {
        assert(width(s[s.len() - 1]) == 1);
        assert forall|i: int| 0 <= i < s.drop_last().len() implies width(#[trigger] s.drop_last()[i]) == 1 by {
            assert(s.drop_last()[i] == s[i]);
        }
        narrow_bytes(s.drop_last());
    }
}

/// Reads hexadecimal data, with or without `0x`.
pub fn parse_hex_bytes(s: &str) -> (r: Result<Vec<u8>, String>)
    requires
        !splits_a_character(s@),
    ensures
        reads_hex(s@, r),
{
    let t: String = trim(s);
    let hex: String = hex_text_of(t.as_str());
    let chars: Vec<char> = chars_of(hex.as_str());
    let n: usize = chars.len();
    if !even_bytes(&chars) {
        return Err(quote("hex data must have even length, got '", t.as_str(), "'"));
    }
    let ghost all = chars@;
    let mut data: Vec<u8> = Vec::new();
    let mut i: usize = 0;
    while i < n
        invariant
            n == all.len(),
            chars@ == all,
            all == hex_part(s@),
            t@ == input::trimmed(s@),
            byte_len(all) % 2 == 0,
            !splits_from(all, i as int),
            bad_pair(all, 0) == bad_pair(all, i as int),
            i <= n,
            i % 2 == 0,
            forall|k: int| 0 <= k < i ==> width(#[trigger] all[k]) == 1,
            data@ == pair_bytes(all, (i / 2) as nat),
        decreases n - i,
    {
        let wide: bool = width_of(chars[i]) > 1;
        if !wide && i == n - 1 {
            proof {
                narrow_bytes(all);
                assert(false);
            }
        }
        let value: Option<u8> = if wide || i == n - 1 {
            None
        } else {
            value_of_pair(chars[i], chars[i + 1])
        };
        match value {
            Some(b) => {
                data.push(b);
                proof {
                    assert(pair_bytes(all, (i / 2 + 1) as nat) =~= pair_bytes(all, (i / 2) as nat).push(b));
                }
            },
            None => {
                let mut out: String = "invalid hex byte at position ".to_owned();
                push_dec(&mut out, i as u64);
                let ghost head = out@;
                out.append(" in '");
                out.append(t.as_str());
                out.append("'");
                proof {
                    assert(out@ =~= head + quoting(" in '"@, t@, "'"@));
                }
                return Err(out);
            },
        }
        i = i + 2;
    }
    Ok(data)
}

/// Bytes as pairs of hexadecimal digits, separated by spaces.
pub open spec fn hex_bytes(data: Seq<u8>) -> Seq<char>
    decreases data.len(),
{
    if data.len() == 0 {
        Seq::empty()
    } else if data.len() == 1 {
        crate::text::hex(data[0] as nat, 2)
    } else {
        hex_bytes(data.drop_last()) + " "@ + crate::text::hex(data.last() as nat, 2)
    }
}

/// Writes bytes as pairs of hexadecimal digits, separated by spaces.
pub fn to_hex(data: &[u8]) -> (out: String)
    ensures
        out@ == hex_bytes(data@),
{
    let mut out: String = String::new();
    let mut i: usize = 0;
    proof {
        assert(data@.take(0) =~= Seq::<u8>::empty());
    }
    while i < data.len()
        invariant
            i <= data@.len(),
            out@ == hex_bytes(data@.take(i as int)),
        decreases data@.len() - i,
    {
        let ghost before = out@;
        if i > 0 {
            out.append(" ");
        }
        crate::text::push_hex(&mut out, data[i] as u32, 2);
        proof {
            let more = data@.take(i + 1);
            assert(more.drop_last() =~= data@.take(i as int));
            assert(more.last() == data@[i as int]);
            if i == 0 {
                assert(before =~= Seq::<char>::empty());
                assert(out@ =~= crate::text::hex(data@[0] as nat, 2));
            }
        }
        i = i + 1;
    }
    proof {
        assert(data@.take(i as int) =~= data@);
    }
    out
}

/// A level as a percentage of 255, rounded to the nearest integer.
pub open spec fn percentage(v: u8) -> nat {
    ((v * 100 + 127) / 255) as nat
}

/// Shows a level as a percentage.
pub fn percent(v: u8) -> (out: String)
    ensures
        out@ == crate::text::dec(percentage(v)) + "%"@,
{
    let mut out: String = String::new();
    push_dec(&mut out, (v as u64 * 100 + 127) / 255);
    out.append("%");
    proof {
        assert(out@ =~= crate::text::dec(percentage(v)) + "%"@);
    }
    out
}

/// A percentage is rounded to the nearest level, and the ends of the scale are
/// met.
pub proof fn levels_round_to_nearest(pct: nat)
    requires
        pct <= 100,
    ensures
        scaled(pct) <= 255,
        -50 < 100 * scaled(pct) - 255 * pct <= 50,
        pct == 0 ==> scaled(pct) == 0,
        pct == 100 ==> scaled(pct) == 255,
{
}

/// A level is rounded to the nearest percentage.
pub proof fn percentages_round_to_nearest(v: u8)
    ensures
        percentage(v) <= 100,
        -127 <= 255 * percentage(v) - 100 * v <= 127,
{
}

/// A percentage that was set is the percentage that is shown.
pub proof fn percentages_read_back(pct: nat)
    requires
        pct <= 100,
    ensures
        percentage(scaled(pct) as u8) == pct,
{
}

proof fn effect_names_are_plain(i: int, p: int)
    requires
        0 <= i < 19,
    ensures
        EFFECTS@[i].1@.len() > 3,
        0 <= p < EFFECTS@[i].1@.len() ==> ('a' <= EFFECTS@[i].1@[p] <= 'z') || EFFECTS@[i].1@[p] == '-',
{
    reveal_strlit("static");
    reveal_strlit("keystroke-light-up");
    reveal_strlit("keystroke-dim");
    reveal_strlit("sparkle");
    reveal_strlit("rain");
    reveal_strlit("random-colors");
    reveal_strlit("breathing");
    reveal_strlit("spectrum-cycle");
    reveal_strlit("ring-gradient");
    reveal_strlit("vertical-gradient");
    reveal_strlit("rainbow-wave");
    reveal_strlit("around-edges");
    reveal_strlit("keystroke-horizontal-lines");
    reveal_strlit("keystroke-tilted-lines");
    reveal_strlit("keystroke-ripples");
    reveal_strlit("sequence");
    reveal_strlit("wave-line");
    reveal_strlit("tilted-lines");
    reveal_strlit("back-and-forth");
}

/// Length and fourth letter tell the effect names apart.
proof fn effect_names_differ(i: int, k: int)
    requires
        0 <= i < k < 19,
    ensures
        EFFECTS@[i].1@ != EFFECTS@[k].1@,
{
    reveal_strlit("static");
    reveal_strlit("keystroke-light-up");
    reveal_strlit("keystroke-dim");
    reveal_strlit("sparkle");
    reveal_strlit("rain");
    reveal_strlit("random-colors");
    reveal_strlit("breathing");
    reveal_strlit("spectrum-cycle");
    reveal_strlit("ring-gradient");
    reveal_strlit("vertical-gradient");
    reveal_strlit("rainbow-wave");
    reveal_strlit("around-edges");
    reveal_strlit("keystroke-horizontal-lines");
    reveal_strlit("keystroke-tilted-lines");
    reveal_strlit("keystroke-ripples");
    reveal_strlit("sequence");
    reveal_strlit("wave-line");
    reveal_strlit("tilted-lines");
    reveal_strlit("back-and-forth");
    assert(EFFECTS@[i].1@.len() != EFFECTS@[k].1@.len() || EFFECTS@[i].1@[3] != EFFECTS@[k].1@[3]);
}

proof fn effect_found_from(k: int, i: int)
    requires
        0 <= i <= k < 19,
    ensures
        effect_named(EFFECTS@[k].1@, i) == Some(EFFECTS@[k].0),
    decreases k - i,
{
    if i < k {
        effect_names_differ(i, k);
        effect_found_from(k, i + 1);
    }
}

/// The name of an effect reads as its number.
pub proof fn effect_names_read_back(i: int)
    requires
        0 <= i < 19,
    ensures
        effect(EFFECTS@[i].1@) == Some(EFFECTS@[i].0 as nat),
{
    let name = EFFECTS@[i].1@;
    effect_names_are_plain(i, 0);
    effect_names_are_plain(i, name.len() - 1);
    assert(input::trimmed(name) == name);
    assert forall|p: int| 0 <= p < name.len() implies ('a' <= #[trigger] name[p] <= 'z') || name[p] == '-' by {
        effect_names_are_plain(i, p);
    }
    assert(input::lowered(name) =~= name);
    assert(input::replaced(name, ' ', '-') =~= name);
    assert(input::replaced(name, '_', '-') =~= name);
    reveal_strlit("off");
    effect_found_from(i, 0);
}

proof fn color_names_are_plain(i: int, p: int)
    requires
        0 <= i < 10,
    ensures
        COLORS@[i].0@.len() >= 3,
        0 <= p < COLORS@[i].0@.len() ==> 'a' <= COLORS@[i].0@[p] <= 'z',
{
    reveal_strlit("red");
    reveal_strlit("orange");
    reveal_strlit("yellow");
    reveal_strlit("green");
    reveal_strlit("cyan");
    reveal_strlit("blue");
    reveal_strlit("purple");
    reveal_strlit("magenta");
    reveal_strlit("pink");
    reveal_strlit("white");
}

/// The first two letters and the length tell the colour names apart.
proof fn color_names_differ(i: int, k: int)
    requires
        0 <= i < k < 10,
    ensures
        COLORS@[i].0@.len() != COLORS@[k].0@.len() || COLORS@[i].0@[0] != COLORS@[k].0@[0] || COLORS@[i].0@[1]
            != COLORS@[k].0@[1],
{
    reveal_strlit("red");
    reveal_strlit("orange");
    reveal_strlit("yellow");
    reveal_strlit("green");
    reveal_strlit("cyan");
    reveal_strlit("blue");
    reveal_strlit("purple");
    reveal_strlit("magenta");
    reveal_strlit("pink");
    reveal_strlit("white");
}

proof fn color_found_from(k: int, i: int)
    requires
        0 <= i <= k < 10,
    ensures
        color_named(COLORS@[k].0@, i) == Some(COLORS@[k].1@),
    decreases k - i,
{
    if i < k {
        let a = COLORS@[i].0@;
        let b = COLORS@[k].0@;
        color_names_differ(i, k);
        color_names_are_plain(i, 0);
        color_names_are_plain(i, 1);
        color_names_are_plain(k, 0);
        color_names_are_plain(k, 1);
        if input::same_letters(a, b) {
            assert(input::lowered(a).len() == a.len() && input::lowered(b).len() == b.len());
            assert(input::lowered(a)[0] == a[0] && input::lowered(b)[0] == b[0]);
            assert(input::lowered(a)[1] == a[1] && input::lowered(b)[1] == b[1]);
        }
        color_found_from(k, i + 1);
    }
}

/// The name of a colour reads as the colour.
pub proof fn color_names_read_back(i: int)
    requires
        0 <= i < 10,
    ensures
        color(COLORS@[i].0@) == Some(COLORS@[i].1@),
{
    let name = COLORS@[i].0@;
    color_names_are_plain(i, 0);
    color_names_are_plain(i, name.len() - 1);
    assert(input::trimmed(name) == name);
    color_found_from(i, 0);
}

proof fn digits_read_back(d: nat)
    requires
        d < 16,
    ensures
        input::digit_value(crate::text::digit(d), 16) == Some(d),
        crate::text::digit(d) != '+',
{
}

/// A keycode that is shown in hexadecimal is read as the same keycode.
pub proof fn shown_codes_read_back(code: u16)
    ensures
        input::number(keycodes::hex_text(code), u16::MAX as nat) == Some(code as nat),
{
    reveal_strlit("0x");
    reveal_with_fuel(crate::text::hex, 5);
    reveal_with_fuel(input::digits_value, 5);
    let n = code as nat;
    let digits = crate::text::hex(n, 4);
    assert(keycodes::hex_text(code).skip(2) =~= digits);
    digits_read_back(n % 16);
    digits_read_back(n / 16 % 16);
    digits_read_back(n / 16 / 16 % 16);
    digits_read_back(n / 16 / 16 / 16 % 16);
    let d1 = digits.drop_last();
    let d2 = d1.drop_last();
    let d3 = d2.drop_last();
    assert(d1 =~= crate::text::hex(n / 16, 3));
    assert(d2 =~= crate::text::hex(n / 16 / 16, 2));
    assert(d3 =~= crate::text::hex(n / 16 / 16 / 16, 1));
    assert(d3.drop_last() =~= Seq::<char>::empty());
    assert(input::digits_value(d3, 16) == Some(n / 16 / 16 / 16));
    assert(input::digits_value(d2, 16) == Some(n / 16 / 16));
    assert(input::digits_value(d1, 16) == Some(n / 16));
    assert(input::digits_value(digits, 16) == Some(n));
    assert(digits[0] == crate::text::digit(n / 16 / 16 / 16 % 16));
}

/// A message quotes a text between what stands before it and what stands behind it.
pub proof fn messages_quote(before: Seq<char>, s: Seq<char>, after: Seq<char>)
    ensures
        quoting(before, s, after).len() == before.len() + s.len() + after.len(),
        quoting(before, s, after).take(before.len() as int) == before,
        quoting(before, s, after).skip((before.len() + s.len()) as int) == after,
        input::stands_at(quoting(before, s, after), s, before.len() as int),
{
    let m = quoting(before, s, after);
    let at = before.len() as int;
    assert(m.take(at) =~= before);
    assert(m.skip((before.len() + s.len()) as int) =~= after);
    assert(m.subrange(at, at + s.len()) =~= s);
}

/// The effects are numbered from 1 on, without gaps.
pub proof fn effects_are_numbered_in_turn(i: int)
    requires
        0 <= i < 19,
    ensures
        EFFECTS@[i].0 == i + 1,
{
}

/// An effect is shown by its number and its name, and a number that stands for no
/// effect by itself.
pub proof fn effects_are_shown_by_name(i: int, id: u8)
    requires
        0 <= i < 19,
    ensures
        id == i + 1 ==> effect_text(id) == byte_text(id) + " ("@ + EFFECTS@[i].1@ + ")"@,
        id == 0 || id > 19 ==> effect_text(id) == byte_text(id),
{
    if id == i + 1 {
        effect_shown_from(i, 0);
    }
    if id == 0 || id > 19 {
        no_effect_from(id, 0);
    }
}

proof fn effect_shown_from(k: int, i: int)
    requires
        0 <= i <= k < 19,
    ensures
        effect_name((k + 1) as u8, i) == Some(EFFECTS@[k].1),
    decreases k - i,
{
    effects_are_numbered_in_turn(i);
    if i < k {
        effect_shown_from(k, i + 1);
    }
}

proof fn no_effect_from(id: u8, i: int)
    requires
        0 <= i <= 19,
        id == 0 || id > 19,
    ensures
        effect_name(id, i) is None,
    decreases 19 - i,
{
    if i < 19 {
        effects_are_numbered_in_turn(i);
        no_effect_from(id, i + 1);
    }
}

/// A number of two hexadecimal digits behind `0x` reads back, as an effect too.
pub proof fn shown_bytes_read_back(id: u8)
    ensures
        byte_text(id).len() == 4,
        input::trimmed(byte_text(id)) == byte_text(id),
        input::number(byte_text(id), 255) == Some(id as nat),
        effect(byte_text(id)) == Some(id as nat),
{
    reveal_strlit("0x");
    reveal_strlit("off");
    let digits = crate::text::hex(id as nat, 2);
    let s = byte_text(id);
    input::hexadecimals_read_back(id as nat, 2);
    input::numerals_are_digits(digits, 16, 255);
    assert(input::digit_value(digits[0], 16) is Some);
    assert(input::digit_value(digits[1], 16) is Some);
    assert(s =~= seq!['0', 'x'] + digits);
    input::prefixes_tell_the_radix(digits, 255);
    assert(s.last() == digits[1]);
    input::padding_is_trimmed(Seq::empty(), s, Seq::empty());
    assert(Seq::<char>::empty() + s + Seq::<char>::empty() =~= s);
    assert(effect_word(s)[0] == '0');
    assert("off"@[0] == 'o');
    no_effect_begins_with_a_digit(effect_word(s), 0);
}

/// In an effect's name spaces and underscores stand for hyphens, and letter case
/// and white space around it do not matter; `off` is no light.
pub proof fn effect_words_are_hyphenated(s: Seq<char>, p: int)
    requires
        0 <= p < input::trimmed(s).len(),
    ensures
        ({
            let t = input::trimmed(s);
            let w = effect_word(s);
            &&& w.len() == t.len()
            &&& t[p] == ' ' || t[p] == '_' || t[p] == '-' ==> w[p] == '-'
            &&& t[p] != ' ' && t[p] != '_' ==> w[p] == input::lower(t[p])
            &&& w =~= "off"@ ==> effect(s) == Some(0nat)
        }),
{
}

/// Red, green and blue are the three bytes of the number, from the highest on.
pub proof fn components_are_bytes(v: nat)
    requires
        v < 16777216,
    ensures
        components(v).len() == 3,
        65536 * components(v)[0] + 256 * components(v)[1] + components(v)[2] == v,
{
}

/// Two hexadecimal digits for each of red, green and blue read back as the color,
/// after a hash sign.
pub proof fn written_colors_read_back(r: u8, g: u8, b: u8)
    ensures
        ({
            let s = seq!['#'] + crate::text::hex(r as nat, 2) + crate::text::hex(g as nat, 2) + crate::text::hex(
                b as nat,
                2,
            );
            color(s) == Some(seq![r, g, b])
        }),
{
    let digits = crate::text::hex(r as nat, 2) + crate::text::hex(g as nat, 2) + crate::text::hex(b as nat, 2);
    let s = seq!['#'] + crate::text::hex(r as nat, 2) + crate::text::hex(g as nat, 2) + crate::text::hex(b as nat, 2);
    let v = 65536 * r as nat + 256 * g as nat + b as nat;
    six_digits_read_back(r, g, b);
    six_digits_are_a_numeral(digits, v);
    hash_before_all(
        crate::text::hex(r as nat, 2),
        crate::text::hex(g as nat, 2),
        crate::text::hex(b as nat, 2),
    );
    digits_behind_a_hash(digits, v);
    three_bytes(r, g, b);
}

proof fn hash_before_all(x: Seq<char>, y: Seq<char>, z: Seq<char>)
    ensures
        seq!['#'] + x + y + z == seq!['#'] + (x + y + z),
{
    assert(seq!['#'] + x + y + z =~= seq!['#'] + (x + y + z));
}

proof fn three_bytes(r: u8, g: u8, b: u8)
    ensures
        components(65536 * r as nat + 256 * g as nat + b as nat) == seq![r, g, b],
{
    let v = 65536 * r as nat + 256 * g as nat + b as nat;
    assert(v / 256 == 256 * r + g);
    assert(v / 65536 == r);
    assert(components(v) =~= seq![r, g, b]);
}

proof fn six_digits_are_a_numeral(digits: Seq<char>, v: nat)
    requires
        digits.len() == 6,
        v < 16777216,
        input::digits_value(digits, 16) == Some(v),
    ensures
        input::numeral(digits, 16, u32::MAX as nat) == Some(v),
        !input::blank(digits[5]),
{
    input::numerals_are_digits(digits, 16, u32::MAX as nat);
    assert(input::digit_value(digits[0], 16) is Some);
    assert(input::digit_value(digits[5], 16) is Some);
}

proof fn digits_behind_a_hash(digits: Seq<char>, v: nat)
    requires
        digits.len() == 6,
        !input::blank(digits[5]),
        input::numeral(digits, 16, u32::MAX as nat) == Some(v),
    ensures
        color(seq!['#'] + digits) == Some(components(v)),
{
    let s = seq!['#'] + digits;
    assert(s[0] == '#' && s.last() == digits[5]);
    plain_texts_are_not_trimmed(s);
    no_color_name_from(s, 0);
    assert(s.skip(1) =~= digits);
}

proof fn six_digits_read_back(r: u8, g: u8, b: u8)
    ensures
        ({
            let digits = crate::text::hex(r as nat, 2) + crate::text::hex(g as nat, 2) + crate::text::hex(b as nat, 2);
            &&& digits.len() == 6
            &&& input::digits_value(digits, 16) == Some(65536 * r as nat + 256 * g as nat + b as nat)
        }),
{
    let (x, y, z) = (crate::text::hex(r as nat, 2), crate::text::hex(g as nat, 2), crate::text::hex(b as nat, 2));
    input::hexadecimals_read_back(r as nat, 2);
    input::hexadecimals_read_back(g as nat, 2);
    input::hexadecimals_read_back(b as nat, 2);
    two_digits_more(x, y);
    two_digits_more(x + y, z);
}

/// Two digits more count 256 times what was there.
proof fn two_digits_more(s: Seq<char>, pair: Seq<char>)
    requires
        pair.len() == 2,
        input::digits_value(s, 16) is Some,
        input::digits_value(pair, 16) is Some,
    ensures
        input::digits_value(s + pair, 16) == Some(
            256 * input::digits_value(s, 16)->0 + input::digits_value(pair, 16)->0,
        ),
{
    reveal_with_fuel(input::digits_value, 4);
    let all = s + pair;
    assert(all.drop_last() =~= s.push(pair[0]));
    assert(all.drop_last().drop_last() =~= s);
    assert(pair.drop_last() =~= seq![pair[0]]);
    assert(pair.drop_last().drop_last().len() == 0);
    assert(pair.drop_last().last() == pair[0]);
}

proof fn no_color_name_from(word: Seq<char>, i: int)
    requires
        0 <= i <= 10,
        word.len() > 0,
        word[0] == '#',
    ensures
        color_named(word, i) is None,
    decreases 10 - i,
{
    if i < 10 {
        color_names_are_plain(i, 0);
        if input::same_letters(COLORS@[i].0@, word) {
            assert(input::lowered(word)[0] == '#');
            assert(input::lowered(COLORS@[i].0@)[0] == COLORS@[i].0@[0]);
        }
        no_color_name_from(word, i + 1);
    }
}

/// A percentage up to 100 reads as its share of 255, a bare number up to 255 as
/// itself, and larger ones do not read.
pub proof fn levels_read_as_written(n: nat, r: Result<u8, String>)
    requires
        n <= 65535,
    ensures
        reads_level(crate::text::dec(n).push('%'), r) ==> {
            &&& n <= 100 ==> r is Ok && -50 < 100 * r->Ok_0 - 255 * n <= 50
            &&& n > 100 ==> r is Err
        },
        reads_level(crate::text::dec(n), r) ==> {
            &&& n <= 255 ==> r is Ok && r->Ok_0 == n
            &&& n > 255 ==> r is Err
        },
        reads_level(byte_text(n as u8), r) ==> n <= 255 ==> r is Ok && r->Ok_0 == n,
{
    let s = crate::text::dec(n);
    decimal_is_plain(n);
    input::decimals_read_back(n);
    input::numerals_are_digits(s, 10, u16::MAX as nat);
    input::numerals_are_digits(s, 10, u8::MAX as nat);
    input::prefixes_tell_the_radix(s, u8::MAX as nat);
    assert(s.push('%').drop_last() =~= s);
    input::padding_is_trimmed(Seq::empty(), s, Seq::empty());
    assert(Seq::<char>::empty() + s + Seq::<char>::empty() =~= s);
    if n <= 255 {
        shown_bytes_read_back(n as u8);
        let digits = crate::text::hex(n, 2);
        reveal_strlit("0x");
        input::hexadecimals_read_back(n, 2);
        input::numerals_are_digits(digits, 16, 255);
        assert(input::digit_value(digits[1], 16) is Some);
        assert(byte_text(n as u8).last() == digits[1]);
    }
}

/// The decimal of a number holds digits only.
proof fn decimal_is_plain(n: nat)
    ensures
        crate::text::dec(n).len() >= 1,
        forall|i: int| 0 <= i < crate::text::dec(n).len() ==> '0' <= #[trigger] crate::text::dec(n)[i] <= '9',
        '0' <= crate::text::dec(n).last() <= '9',
    decreases n,
{
    if n >= 10 {
        decimal_is_plain(n / 10);
    }
}

/// UTF-8 takes one byte for ASCII, and two, three or four for the characters from
/// 0x80, 0x800 and 0x10000 on; a text takes as many as its characters together.
pub proof fn utf8_widths(s: Seq<char>, c: char)
    ensures
        width(c) == 1 <==> c as u32 <= 0x7F,
        width(c) == 2 <==> 0x80 <= c as u32 <= 0x7FF,
        width(c) == 3 <==> 0x800 <= c as u32 <= 0xFFFF,
        width(c) == 4 <==> c as u32 >= 0x10000,
        byte_len(s.push(c)) == byte_len(s) + width(c),
        byte_len(Seq::<char>::empty()) == 0,
{
    assert(s.push(c).drop_last() =~= s);
}

/// Bytes as pairs of hexadecimal digits, without anything between them.
pub open spec fn packed_hex(data: Seq<u8>) -> Seq<char>
    decreases data.len(),
{
    if data.len() == 0 {
        Seq::empty()
    } else {
        packed_hex(data.drop_last()) + crate::text::hex(data.last() as nat, 2)
    }
}

proof fn packed_pairs(data: Seq<u8>, k: int)
    ensures
        packed_hex(data).len() == 2 * data.len(),
        0 <= k < data.len() ==> seq![packed_hex(data)[2 * k], packed_hex(data)[2 * k + 1]] == crate::text::hex(
            data[k] as nat,
            2,
        ),
    decreases data.len(),
{
    if data.len() > 0 {
        packed_pairs(data.drop_last(), k);
        input::hexadecimals_read_back(data.last() as nat, 2);
        let pair = crate::text::hex(data.last() as nat, 2);
        if k == data.len() - 1 {
            assert(seq![packed_hex(data)[2 * k], packed_hex(data)[2 * k + 1]] =~= pair);
        } else if 0 <= k < data.len() - 1 {
            assert(data.drop_last()[k] == data[k]);
        }
    }
}

proof fn packed_pairs_are_good(data: Seq<u8>, k: int)
    requires
        0 <= k < data.len(),
    ensures
        ({
            let s = packed_hex(data);
            &&& pair_value(s[2 * k], s[2 * k + 1]) == Some(data[k] as nat)
            &&& width(s[2 * k]) == 1 && width(s[2 * k + 1]) == 1
            &&& input::digit_value(s[2 * k], 16) is Some && input::digit_value(s[2 * k + 1], 16) is Some
        }),
{
    packed_pairs(data, k);
    let s = packed_hex(data);
    let pair = crate::text::hex(data[k] as nat, 2);
    input::hexadecimals_read_back(data[k] as nat, 2);
    input::numerals_are_digits(pair, 16, 255);
    assert(pair[0] == s[2 * k] && pair[1] == s[2 * k + 1]);
    assert(input::digit_value(pair[0], 16) is Some);
    assert(input::digit_value(pair[1], 16) is Some);
}

proof fn no_bad_pair_in_packed(data: Seq<u8>, k: int)
    requires
        0 <= k <= data.len(),
    ensures
        bad_pair(packed_hex(data), 2 * k) is None,
    decreases data.len() - k,
{
    packed_pairs(data, 0);
    if k < data.len() {
        packed_pairs_are_good(data, k);
        no_bad_pair_in_packed(data, k + 1);
    }
}

proof fn packed_is_plain(data: Seq<u8>)
    ensures
        forall|i: int|
            0 <= i < packed_hex(data).len() ==> width(#[trigger] packed_hex(data)[i]) == 1 && !input::blank(
                packed_hex(data)[i],
            ) && packed_hex(data)[i] != 'x' && packed_hex(data)[i] != 'X',
        byte_len(packed_hex(data)) == packed_hex(data).len(),
        pair_bytes(packed_hex(data), data.len()) == data,
{
    let s = packed_hex(data);
    packed_pairs(data, 0);
    assert forall|i: int| 0 <= i < s.len() implies width(#[trigger] s[i]) == 1 && !input::blank(s[i]) && s[i] != 'x'
        && s[i] != 'X' by {
        packed_pairs_are_good(data, i / 2);
        assert(i == 2 * (i / 2) || i == 2 * (i / 2) + 1);
        input::digit_values(s[i], 16);
    }
    narrow_bytes(s);
    assert forall|k: int| 0 <= k < data.len() implies pair_bytes(s, data.len())[k] == data[k] by {
        packed_pairs_are_good(data, k);
    }
    assert(pair_bytes(s, data.len()) =~= data);
}

/// A text that has no white space is not trimmed.
proof fn plain_texts_are_not_trimmed(s: Seq<char>)
    requires
        s.len() > 0 ==> !input::blank(s[0]) && !input::blank(s.last()),
    ensures
        input::trimmed(s) == s,
{
}

/// Data that is written as pairs of hexadecimal digits reads back, behind `0x` or
/// not.
pub proof fn hex_data_reads_back(data: Seq<u8>, r: Result<Vec<u8>, String>)
    ensures
        reads_hex(packed_hex(data), r) ==> r is Ok && r->Ok_0@ == data,
        reads_hex(seq!['0', 'x'] + packed_hex(data), r) ==> r is Ok && r->Ok_0@ == data,
{
    let s = packed_hex(data);
    let prefixed = seq!['0', 'x'] + s;
    packed_pairs(data, 0);
    packed_is_plain(data);
    no_bad_pair_in_packed(data, 0);
    assert(hex_part(s) == s) by {
        plain_texts_are_not_trimmed(s);
    }
    assert(hex_part(prefixed) == s) by {
        assert(s.len() > 0 ==> prefixed.last() == s.last());
        assert(s.len() > 0 ==> s.last() == s[s.len() - 1]);
        plain_texts_are_not_trimmed(prefixed);
        assert(prefixed.skip(2) =~= s);
    }
    assert(s.len() / 2 == data.len());
}

/// The pair that is complained about is the first that is not two hexadecimal
/// digits, counted in characters from the start.
pub proof fn the_first_bad_pair_is_told(s: Seq<char>, i: int, k: int)
    requires
        0 <= i,
    ensures
        bad_pair(s, i) matches Some(at) ==> {
            &&& i <= at < s.len() && (at - i) % 2 == 0
            &&& width(s[at]) > 1 || at + 1 >= s.len() || pair_value(s[at], s[at + 1]) is None
            &&& i <= k < at && (k - i) % 2 == 0 ==> pair_value(s[k], s[k + 1]) is Some
        },
        bad_pair(s, i) is None && i <= k < s.len() && (k - i) % 2 == 0 ==> k + 1 < s.len() && pair_value(
            s[k],
            s[k + 1],
        ) is Some,
    decreases s.len() - i,
{
    if i < s.len() && !(width(s[i]) > 1 || i + 1 >= s.len() || pair_value(s[i], s[i + 1]) is None) {
        the_first_bad_pair_is_told(s, i + 2, k);
    }
}

/// Bytes are shown as pairs of digits with single spaces between them: each byte
/// has two places, and the place behind it is a space.
pub proof fn shown_bytes_are_spaced(data: Seq<u8>, k: int)
    ensures
        data.len() == 0 ==> hex_bytes(data).len() == 0,
        data.len() > 0 ==> hex_bytes(data).len() + 1 == 3 * data.len(),
        0 <= k < data.len() ==> hex_bytes(data).subrange(3 * k, 3 * k + 2) == crate::text::hex(data[k] as nat, 2),
        0 <= k < data.len() - 1 ==> hex_bytes(data)[3 * k + 2] == ' ',
    decreases data.len(),
{
    reveal_strlit(" ");
    if data.len() > 0 {
        let before = data.drop_last();
        shown_bytes_are_spaced(before, k);
        input::hexadecimals_read_back(data.last() as nat, 2);
        let pair = crate::text::hex(data.last() as nat, 2);
        let all = hex_bytes(data);
        if k == data.len() - 1 {
            assert(all.subrange(3 * k, 3 * k + 2) =~= pair);
        } else if 0 <= k < data.len() - 1 {
            assert(before[k] == data[k]);
            assert(all.subrange(3 * k, 3 * k + 2) =~= hex_bytes(before).subrange(3 * k, 3 * k + 2));
        }
    }
}

/// The named colors, in the order of the list: each is at full value, all but pink
/// and white are fully saturated, and those stand in the order of their hues.
pub proof fn colors_are_pure(i: int)
    requires
        0 <= i < 10,
    ensures
        ({
            let c = COLORS@[i].1;
            let (h, s) = crate::color::hs_of(c[0], c[1], c[2]);
            &&& c[0] == 255 || c[1] == 255 || c[2] == 255
            &&& i < 8 ==> s == 255
            &&& i == 9 ==> s == 0
            &&& 0 < i < 8 ==> {
                let d = COLORS@[i - 1].1;
                crate::color::hs_of(d[0], d[1], d[2]).0 < h
            }
        }),
{
    assert(i == 0 || i == 1 || i == 2 || i == 3 || i == 4 || i == 5 || i == 6 || i == 7 || i == 8 || i == 9);
}

/// A number up to 255 reads as the effect of that number, and a larger one does not
/// read.
pub proof fn effect_numbers_read_as_themselves(n: nat)
    ensures
        n <= 255 ==> effect(crate::text::dec(n)) == Some(n),
        n > 255 ==> effect(crate::text::dec(n)) is None,
{
    reveal_strlit("off");
    let s = crate::text::dec(n);
    decimal_is_plain(n);
    assert('0' <= s[0] <= '9' && s.last() == s[s.len() - 1]);
    plain_texts_are_not_trimmed(s);
    input::decimals_read_back(n);
    input::numerals_are_digits(s, 10, u8::MAX as nat);
    input::prefixes_tell_the_radix(s, u8::MAX as nat);
    assert(effect_word(s)[0] == s[0]);
    assert("off"@[0] == 'o');
    no_effect_begins_with_a_digit(effect_word(s), 0);
}

proof fn no_effect_begins_with_a_digit(word: Seq<char>, i: int)
    requires
        0 <= i <= 19,
        word.len() > 0,
        '0' <= word[0] <= '9',
    ensures
        effect_named(word, i) is None,
    decreases 19 - i,
{
    if i < 19 {
        effect_names_are_plain(i, 0);
        no_effect_begins_with_a_digit(word, i + 1);
    }
}

/// The effects by name: each name reads as one number.
pub proof fn effects_by_name()
    ensures
        effect("static"@) == Some(1nat),
        effect("keystroke-light-up"@) == Some(2nat),
        effect("keystroke-dim"@) == Some(3nat),
        effect("sparkle"@) == Some(4nat),
        effect("rain"@) == Some(5nat),
        effect("random-colors"@) == Some(6nat),
        effect("breathing"@) == Some(7nat),
        effect("spectrum-cycle"@) == Some(8nat),
        effect("ring-gradient"@) == Some(9nat),
        effect("vertical-gradient"@) == Some(10nat),
        effect("rainbow-wave"@) == Some(11nat),
        effect("around-edges"@) == Some(12nat),
        effect("keystroke-horizontal-lines"@) == Some(13nat),
        effect("keystroke-tilted-lines"@) == Some(14nat),
        effect("keystroke-ripples"@) == Some(15nat),
        effect("sequence"@) == Some(16nat),
        effect("wave-line"@) == Some(17nat),
        effect("tilted-lines"@) == Some(18nat),
        effect("back-and-forth"@) == Some(19nat),
{
    effect_names_read_back(0);
    effect_names_read_back(1);
    effect_names_read_back(2);
    effect_names_read_back(3);
    effect_names_read_back(4);
    effect_names_read_back(5);
    effect_names_read_back(6);
    effect_names_read_back(7);
    effect_names_read_back(8);
    effect_names_read_back(9);
    effect_names_read_back(10);
    effect_names_read_back(11);
    effect_names_read_back(12);
    effect_names_read_back(13);
    effect_names_read_back(14);
    effect_names_read_back(15);
    effect_names_read_back(16);
    effect_names_read_back(17);
    effect_names_read_back(18);
}

/// Six hexadecimal digits read as a color without a hash sign too, and text of
/// another length that names no color does not read.
pub proof fn colors_need_no_hash(r: u8, g: u8, b: u8, s: Seq<char>)
    ensures
        color(
            crate::text::hex(r as nat, 2) + crate::text::hex(g as nat, 2) + crate::text::hex(b as nat, 2),
        ) == Some(seq![r, g, b]),
        color_named(input::trimmed(s), 0) is None && without_hash(input::trimmed(s)).len() != 6 ==> color(s) is None,
        color_named(input::trimmed(s), 0) is Some ==> color(s) == color_named(input::trimmed(s), 0),
{
    let digits = crate::text::hex(r as nat, 2) + crate::text::hex(g as nat, 2) + crate::text::hex(b as nat, 2);
    let v = 65536 * r as nat + 256 * g as nat + b as nat;
    six_digits_read_back(r, g, b);
    six_digits_are_a_numeral(digits, v);
    six_digits_alone(digits, v);
    three_bytes(r, g, b);
}

proof fn six_digits_alone(digits: Seq<char>, v: nat)
    requires
        digits.len() == 6,
        input::digits_value(digits, 16) is Some,
        input::numeral(digits, 16, u32::MAX as nat) == Some(v),
    ensures
        color(digits) == Some(components(v)),
{
    input::numerals_are_digits(digits, 16, u32::MAX as nat);
    assert(input::digit_value(digits[0], 16) is Some);
    assert(input::digit_value(digits[5], 16) is Some);
    plain_texts_are_not_trimmed(digits);
    no_color_of_digits(digits, 0);
}

/// The color names of six letters begin with a letter that is no hexadecimal digit.
proof fn no_color_of_digits(word: Seq<char>, i: int)
    requires
        0 <= i <= 10,
        word.len() == 6,
        input::digit_value(word[0], 16) is Some,
    ensures
        color_named(word, i) is None,
    decreases 10 - i,
{
    if i < 10 {
        let name = COLORS@[i].0@;
        assert(name.len() != 6 || name[0] == 'o' || name[0] == 'y' || name[0] == 'p') by {
            reveal_strlit("red");
            reveal_strlit("orange");
            reveal_strlit("yellow");
            reveal_strlit("green");
            reveal_strlit("cyan");
            reveal_strlit("blue");
            reveal_strlit("purple");
            reveal_strlit("magenta");
            reveal_strlit("pink");
            reveal_strlit("white");
        }
        if input::same_letters(name, word) {
            assert(input::lowered(word).len() == word.len() && input::lowered(name).len() == name.len());
            assert(input::lowered(word)[0] == input::lower(word[0]));
            assert(input::lowered(name)[0] == input::lower(name[0]));
        }
        no_color_of_digits(word, i + 1);
    }
}

/// Text of one-byte characters can always be taken two bytes at a time.
pub proof fn ascii_is_not_split(s: Seq<char>, i: int)
    requires
        0 <= i,
        forall|k: int| 0 <= k < s.len() ==> (#[trigger] s[k]) as u32 <= 0x7F,
    ensures
        !splits_from(s, i),
    decreases s.len() - i,
{
    if i + 1 < s.len() {
        assert(s[i] as u32 <= 0x7F && s[i + 1] as u32 <= 0x7F);
        ascii_is_not_split(s, i + 2);
    } else if i < s.len() {
        assert(s[i] as u32 <= 0x7F);
    }
}

/// All named colors but orange, purple and pink are corners of the color cube;
/// orange lies half-way from red to yellow, and purple half-way from blue to magenta.
pub proof fn colors_lie_on_corners(i: int, k: int)
    requires
        0 <= i < 10,
        0 <= k < 3,
    ensures
        i != 1 && i != 6 && i != 8 ==> COLORS@[i].1@[k] == 0 || COLORS@[i].1@[k] == 255,
        i == 1 ==> COLORS@[i].1@ =~= seq![255u8, 128, 0],
        i == 6 ==> COLORS@[i].1@ =~= seq![128u8, 0, 255],
        i == 8 ==> COLORS@[i].1@ =~= seq![255u8, 105, 180],
{
    assert(k == 0 || k == 1 || k == 2);
    assert(i == 0 || i == 1 || i == 2 || i == 3 || i == 4 || i == 5 || i == 6 || i == 7 || i == 8 || i == 9);
}

/// Two digits write sixteen times the first and once the second, in either case.
pub proof fn pairs_write_bytes(a: char, b: char)
    requires
        input::digit_value(a, 16) is Some,
    ensures
        input::digit_value(b, 16) is Some ==> pair_value(a, b) == Some(
            16 * input::digit_value(a, 16)->0 + input::digit_value(b, 16)->0,
        ),
        input::digit_value(b, 16) is None ==> pair_value(a, b) is None,
{
    reveal_with_fuel(input::digits_value, 3);
    let s = seq![a, b];
    assert(s.drop_last() =~= seq![a]);
    assert(s.drop_last().drop_last().len() == 0);
    input::numerals_are_digits(s, 16, 255);
    assert(s[0] == a && s[1] == b);
}

/// Data of an odd number of bytes does not read, nor does data with a bad pair; and
/// a prefix `0x` or `0X` does not belong to the data.
pub proof fn bad_data_does_not_read(s: Seq<char>, r: Result<Vec<u8>, String>)
    ensures
        reads_hex(s, r) ==> {
            &&& byte_len(hex_part(s)) % 2 == 1 ==> r is Err
            &&& bad_pair(hex_part(s), 0) is Some ==> r is Err
            &&& byte_len(hex_part(s)) % 2 == 0 && bad_pair(hex_part(s), 0) is None ==> r is Ok && r->Ok_0@.len()
                == hex_part(s).len() / 2
        },
        input::trimmed(s).len() >= 2 && input::trimmed(s)[0] == '0' && input::lower(input::trimmed(s)[1]) == 'x'
            ==> hex_part(s) == input::trimmed(s).skip(2),
        !(input::trimmed(s).len() >= 2 && input::trimmed(s)[0] == '0' && input::lower(input::trimmed(s)[1]) == 'x')
            ==> hex_part(s) == input::trimmed(s),
{
}

/// The color names are listed with commas between them.
pub proof fn color_names_are_listed(n: int)
    requires
        0 < n < 10,
    ensures
        color_names(1) == COLORS@[0].0@,
        color_names(n + 1) == color_names(n) + ", "@ + COLORS@[n].0@,
{
}

/// White space may stand between a percentage and its sign.
pub proof fn percent_signs_may_stand_apart(n: nat, gap: Seq<char>, r: Result<u8, String>)
    requires
        n <= 100,
        forall|i: int| 0 <= i < gap.len() ==> input::blank(#[trigger] gap[i]),
        reads_level((crate::text::dec(n) + gap).push('%'), r),
    ensures
        r is Ok,
        r->Ok_0 == scaled(n),
{
    let s = crate::text::dec(n);
    decimal_is_plain(n);
    assert('0' <= s[0] <= '9');
    input::decimals_read_back(n);
    input::numerals_are_digits(s, 10, u16::MAX as nat);
    input::padding_is_trimmed(Seq::empty(), s, gap);
    assert(Seq::<char>::empty() + s + gap =~= s + gap);
    assert((s + gap).push('%').drop_last() =~= s + gap);
}

/// A color is found under its name in any letter case, with white space around it
/// or not.
pub proof fn color_names_have_no_case(lead: Seq<char>, word: Seq<char>, trail: Seq<char>, k: int)
    requires
        forall|i: int| 0 <= i < lead.len() ==> input::blank(#[trigger] lead[i]),
        forall|i: int| 0 <= i < trail.len() ==> input::blank(#[trigger] trail[i]),
        0 <= k < 10,
        input::same_letters(word, COLORS@[k].0@),
    ensures
        color(lead + word + trail) == Some(COLORS@[k].1@),
{
    let name = COLORS@[k].0@;
    color_names_are_plain(k, 0);
    color_names_are_plain(k, name.len() - 1);
    input::letters_are_compared_in_place(word, name);
    assert(input::upper(word[0]) == input::upper(name[0]));
    assert(input::upper(word[word.len() - 1]) == input::upper(name[name.len() - 1]));
    input::padding_is_trimmed(lead, word, trail);
    color_found_in_any_case(word, k, 0);
}

proof fn color_found_in_any_case(word: Seq<char>, k: int, i: int)
    requires
        0 <= i <= k < 10,
        input::same_letters(word, COLORS@[k].0@),
    ensures
        color_named(word, i) == Some(COLORS@[k].1@),
    decreases k - i,
{
    if i < k {
        let a = COLORS@[i].0@;
        let b = COLORS@[k].0@;
        color_names_differ(i, k);
        color_names_are_plain(i, 0);
        color_names_are_plain(i, 1);
        color_names_are_plain(k, 0);
        color_names_are_plain(k, 1);
        if input::same_letters(a, word) {
            assert(input::lowered(a).len() == a.len() && input::lowered(b).len() == b.len());
            assert(input::lowered(a)[0] == a[0] && input::lowered(b)[0] == b[0]);
            assert(input::lowered(a)[1] == a[1] && input::lowered(b)[1] == b[1]);
        }
        color_found_in_any_case(word, k, i + 1);
    }
}

/// Whatever is written like an effect's name, in any letter case and with spaces or
/// underscores for hyphens, reads as the effect.
pub proof fn effects_are_found_however_written(s: Seq<char>, k: int)
    requires
        0 <= k < 19,
        effect_word(s) == EFFECTS@[k].1@,
    ensures
        effect(s) == Some((k + 1) as nat),
{
    reveal_strlit("off");
    effect_names_are_plain(k, 0);
    effects_are_numbered_in_turn(k);
    effect_found_from(k, 0);
}

} // verus!
