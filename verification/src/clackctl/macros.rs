//! Showing macro storage.

use vstd::prelude::*;

use crate::clackctl::keycodes;
use crate::clackctl::keycodes::to_hex_text;
use crate::clackctl::parse;
use crate::clackctl::parse::to_hex;
use crate::text;
use crate::text::{push_dec, push_hex_at_least, push_left, push_text};

verus! {

/// How a byte is shown as text: printable ASCII as it is, everything else as a
/// dot.
pub open spec fn glyph(b: u8) -> char {
    if 0x20 <= b <= 0x7e {
        b as char
    } else {
        '.'
    }
}

/// How bytes are shown as text.
pub open spec fn glyphs(data: Seq<u8>) -> Seq<char> {
    Seq::new(data.len(), |i: int| glyph(data[i]))
}

/// One line of a dump: the address, the bytes, and the bytes as text.
pub open spec fn dump_line(address: nat, chunk: Seq<u8>) -> Seq<char> {
    text::hex_at_least(address, 4) + "  "@ + text::left_aligned(parse::hex_bytes(chunk), 48) + "  |"@ + glyphs(chunk)
        + "|"@
}

/// The part of `data` that line `i` of a dump shows.
pub open spec fn chunk(data: Seq<u8>, i: int) -> Seq<u8> {
    data.subrange(
        16 * i,
        if 16 * i + 16 < data.len() {
            16 * i + 16
        } else {
            data.len() as int
        },
    )
}

/// How many lines a dump of `n` bytes has.
pub open spec fn line_count(n: nat) -> nat {
    (n + 15) / 16
}

/// The bytes as text.
fn push_glyphs(out: &mut String, data: &[u8])
    ensures
        final(out)@ == old(out)@ + glyphs(data@),
{
    let ghost start = out@;
    let mut i: usize = 0;
    proof {
        assert(out@ =~= start + glyphs(data@).take(0));
    }
    while i < data.len()
        invariant
            i <= data@.len(),
            out@ == start + glyphs(data@).take(i as int),
        decreases data@.len() - i,
    {
        let b: u8 = data[i];
        if 0x20 <= b && b <= 0x7e {
            out.push(b as char);
        } else {
            out.push('.');
        }
        proof {
            assert(glyphs(data@).take(i + 1) =~= glyphs(data@).take(i as int).push(glyph(b)));
            assert(out@ =~= start + glyphs(data@).take(i + 1));
        }
        i = i + 1;
    }
    proof {
        assert(glyphs(data@).take(i as int) =~= glyphs(data@));
    }
}

/// Dumps macro storage that starts at `offset`, 16 bytes to a line.
pub fn dump_lines(offset: u16, data: &[u8]) -> (lines: Vec<String>)
    requires
        offset + data@.len() <= usize::MAX,
    ensures
        text::texts(lines@) == Seq::new(
            line_count(data@.len()),
            |i: int| dump_line((offset + 16 * i) as nat, chunk(data@, i)),
        ),
{
    let ghost all = Seq::new(
        line_count(data@.len()),
        |i: int| dump_line((offset + 16 * i) as nat, chunk(data@, i)),
    );
    let mut lines: Vec<String> = Vec::new();
    let mut at: usize = 0;
    let mut i: usize = 0;
    proof {
        assert(text::texts(lines@) =~= all.take(0));
    }
    while at < data.len()
        invariant
            offset + data@.len() <= usize::MAX,
            all == Seq::new(
                line_count(data@.len()),
                |i: int| dump_line((offset + 16 * i) as nat, chunk(data@, i)),
            ),
            i <= line_count(data@.len()),
            at == if 16 * i < data@.len() {
                16 * i
            } else {
                data@.len() as int
            },
            at < data@.len() ==> i < line_count(data@.len()),
            at == data@.len() ==> i == line_count(data@.len()),
            text::texts(lines@) == all.take(i as int),
        decreases data@.len() - at,
    {
        let end: usize = if data.len() - at > 16 {
            at + 16
        } else {
            data.len()
        };
        let part: &[u8] = vstd::slice::slice_subrange(data, at, end);
        proof {
            assert(part@ =~= chunk(data@, i as int));
        }
        let mut line: String = String::new();
        push_hex_at_least(&mut line, offset as u64 + at as u64, 4);
        line.append("  ");
        push_left(&mut line, to_hex(part).as_str(), 48);
        line.append("  |");
        push_glyphs(&mut line, part);
        line.append("|");
        proof {
            assert(line@ =~= dump_line((offset + 16 * i) as nat, chunk(data@, i as int)));
            assert(all.take(i + 1) =~= all.take(i as int).push(line@));
        }
        push_text(&mut lines, line);
        i = i + 1;
        at = end;
    }
    proof {
        assert(all.take(i as int) =~= all);
    }
    lines
}

/// What is said once macro storage has been written.
pub fn written_line(id: &str, len: usize, offset: u16) -> (out: String)
    ensures
        out@ == id@ + ": wrote "@ + text::dec(len as nat) + " bytes at offset "@ + keycodes::hex_text(offset),
{
    let mut out: String = id.to_owned().concat(": wrote ");
    push_dec(&mut out, len as u64);
    out.append(" bytes at offset ");
    out.append(to_hex_text(offset).as_str());
    out
}

/// A byte that is printable ASCII is shown as its character, and any other as a dot.
pub proof fn bytes_are_shown_as_text(data: Seq<u8>, i: int)
    requires
        0 <= i < data.len(),
    ensures
        glyphs(data).len() == data.len(),
        32 <= data[i] <= 126 ==> glyphs(data)[i] as u32 == data[i],
        data[i] < 32 || data[i] > 126 ==> glyphs(data)[i] == '.',
{
}

/// A dump has every byte once: sixteen to a line, in order, and no line without
/// bytes.
pub proof fn dumps_show_every_byte(data: Seq<u8>, i: int, line: int)
    ensures
        0 <= i < data.len() ==> i / 16 < line_count(data.len()) && chunk(data, i / 16)[i % 16] == data[i],
        0 <= line < line_count(data.len()) - 1 ==> chunk(data, line).len() == 16,
        0 <= line == line_count(data.len()) - 1 ==> 1 <= chunk(data, line).len() == data.len() - 16 * line <= 16,
        data.len() == 0 <==> line_count(data.len()) == 0,
{
}

/// A line begins with its address in hexadecimal, with four digits where they
/// suffice, has the bytes in a field of 48 characters behind two spaces, and ends
/// with the bytes as text between bars.
pub proof fn dump_lines_have_three_parts(address: nat, part: Seq<u8>)
    requires
        part.len() <= 16,
    ensures
        ({
            let line = dump_line(address, part);
            let n = line.len() - part.len() - 54;
            &&& n >= 4
            &&& address <= 0xFFFF ==> n == 4
            &&& crate::input::digits_value(line.take(n), 16) == Some(address)
            &&& line.subrange(n, n + 2) == "  "@
            &&& line.subrange(n + 2, n + 2 + parse::hex_bytes(part).len()) == parse::hex_bytes(part)
            &&& line.subrange(n + 50, n + 53) == "  |"@
            &&& line.subrange(n + 53, n + 53 + part.len()) == glyphs(part)
            &&& line.last() == '|'
        }),
{
    reveal_strlit("  ");
    reveal_strlit("  |");
    reveal_strlit("|");
    let line = dump_line(address, part);
    let bytes = parse::hex_bytes(part);
    let field = text::left_aligned(bytes, 48);
    parse::shown_bytes_are_spaced(part, 0);
    crate::input::padded_hexadecimals_read_back(address, 4);
    text::fields_hold_text_and_spaces(bytes, 48);
    if address <= 0xFFFF {
        reveal_with_fuel(text::hex_digits, 5);
    }
    let n = text::hex_at_least(address, 4).len() as int;
    assert(line.len() == n + 54 + part.len());
    assert(line.take(n) =~= text::hex_at_least(address, 4));
    assert(line.subrange(n, n + 2) =~= "  "@);
    assert(line.subrange(n + 2, n + 2 + bytes.len()) =~= field.take(bytes.len() as int));
    assert(line.subrange(n + 50, n + 53) =~= "  |"@);
    assert(line.subrange(n + 53, n + 53 + part.len()) =~= glyphs(part));
}

} // verus!
