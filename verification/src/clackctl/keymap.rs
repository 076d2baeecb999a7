//! Showing keymaps and key names.

use vstd::prelude::*;

use crate::clackctl::keycodes;
use crate::clackctl::keycodes::{describe, short_label, to_hex_text, COUNT, ROWS};
use crate::input;
use crate::input::{contains, to_lower};
use crate::text;
use crate::text::{push_dec, push_right, push_text};

verus! {

/// The line below a keymap.
pub const LEGEND: &'static str = "-- = no key assigned · TRNS = falls through to the layer below";

/// What is said when no key name matches.
pub const NO_KEY_MATCHES: &'static str = "No key names match — try `clackctl keys` for the full list.";

/// The layers to show: the chosen one, or all.
pub fn shown_layers(chosen: Option<u8>, layer_count: u8) -> (layers: Vec<u8>)
    ensures
        match chosen {
            Some(l) => layers@ == seq![l],
            None => layers@ == Seq::new(layer_count as nat, |i: int| i as u8),
        },
{
    let mut layers: Vec<u8> = Vec::new();
    if let Some(l) = chosen {
        layers.push(l);
        proof {
            assert(layers@ =~= seq![l]);
        }
        return layers;
    }
    let mut l: u8 = 0;
    while l < layer_count
        invariant
            l <= layer_count,
            layers@ == Seq::new(l as nat, |i: int| i as u8),
        decreases layer_count - l,
    {
        layers.push(l);
        proof {
            assert(layers@ =~= Seq::new((l + 1) as nat, |i: int| i as u8));
        }
        l = l + 1;
    }
    layers
}

/// The greater of two numbers.
pub open spec fn larger(a: nat, b: nat) -> nat {
    if a < b {
        b
    } else {
        a
    }
}

/// The longest label in one row.
pub open spec fn row_width(codes: Seq<u16>) -> nat
    decreases codes.len(),
{
    if codes.len() == 0 {
        0
    } else {
        larger(row_width(codes.drop_last()), keycodes::label(codes.last()).len())
    }
}

/// The longest label in the rows.
pub open spec fn widest(rows: Seq<Vec<u16>>) -> nat
    decreases rows.len(),
{
    if rows.len() == 0 {
        0
    } else {
        larger(widest(rows.drop_last()), row_width(rows.last()@))
    }
}

/// No row has a key.
pub open spec fn no_keys(rows: Seq<Vec<u16>>) -> bool {
    forall|r: int| 0 <= r < rows.len() ==> (#[trigger] rows[r])@.len() == 0
}

/// The width of the columns: that of the longest label, and 2 without any.
pub open spec fn column_width(rows: Seq<Vec<u16>>) -> nat {
    if no_keys(rows) {
        2
    } else {
        widest(rows)
    }
}

/// The headings of the first `n` columns.
pub open spec fn headings(n: int, width: nat) -> Seq<char>
    decreases n,
{
    if n <= 0 {
        "     "@
    } else {
        headings(n - 1, width) + " "@ + text::right_aligned("c"@ + text::dec((n - 1) as nat), width)
    }
}

/// Row number `r` with its first `n` labels.
pub open spec fn row_text(r: nat, codes: Seq<u16>, n: int, width: nat) -> Seq<char>
    decreases n,
{
    if n <= 0 {
        "  r"@ + text::dec(r) + " "@
    } else {
        row_text(r, codes, n - 1, width) + " "@ + text::right_aligned(keycodes::label(codes[n - 1]), width)
    }
}

/// One layer as a grid: a title, the column headings, the rows and an empty line.
pub open spec fn grid(id: Seq<char>, layer: u8, cols: u8, rows: Seq<Vec<u16>>) -> Seq<Seq<char>> {
    let width = column_width(rows);
    seq![id + " layer "@ + text::dec(layer as nat) + ":"@, headings(cols as int, width)] + Seq::new(
        rows.len(),
        |r: int| row_text(r as nat, rows[r]@, rows[r]@.len() as int, width),
    ) + seq![Seq::<char>::empty()]
}

/// The longest label in one row.
fn row_width_of(codes: &Vec<u16>) -> (w: usize)
    ensures
        w == row_width(codes@),
{
    let mut w: usize = 0;
    let mut i: usize = 0;
    proof {
        assert(codes@.take(0) =~= Seq::<u16>::empty());
    }
    while i < codes.len()
        invariant
            i <= codes@.len(),
            w == row_width(codes@.take(i as int)),
        decreases codes@.len() - i,
    {
        let n: usize = short_label(codes[i]).as_str().unicode_len();
        if w < n {
            w = n;
        }
        proof {
            let more = codes@.take(i + 1);
            assert(more.drop_last() =~= codes@.take(i as int));
            assert(more.last() == codes@[i as int]);
        }
        i = i + 1;
    }
    proof {
        assert(codes@.take(i as int) =~= codes@);
    }
    w
}

/// The width of the columns.
fn column_width_of(rows: &Vec<Vec<u16>>) -> (w: usize)
    ensures
        w == column_width(rows@),
{
    let mut w: usize = 0;
    let mut empty: bool = true;
    let mut r: usize = 0;
    proof {
        assert(rows@.take(0) =~= Seq::<Vec<u16>>::empty());
    }
    while r < rows.len()
        invariant
            r <= rows@.len(),
            w == widest(rows@.take(r as int)),
            empty == no_keys(rows@.take(r as int)),
        decreases rows@.len() - r,
    {
        let n: usize = row_width_of(&rows[r]);
        if w < n {
            w = n;
        }
        let ghost some = rows@.take(r as int);
        let ghost more = rows@.take(r + 1);
        proof {
            assert(more.drop_last() =~= some);
            assert(more.last() == rows@[r as int]);
            assert(no_keys(more) == (no_keys(some) && rows@[r as int]@.len() == 0)) by {
                assert(more[r as int] == rows@[r as int]);
                assert forall|k: int| 0 <= k < r implies #[trigger] more[k] == some[k] by {}
                if no_keys(more) {
                    assert forall|k: int| 0 <= k < some.len() implies (#[trigger] some[k])@.len() == 0 by {
                        assert(more[k]@.len() == 0);
                    }
                }
                if no_keys(some) && rows@[r as int]@.len() == 0 {
                    assert forall|k: int| 0 <= k < more.len() implies (#[trigger] more[k])@.len() == 0 by {
                        if k < r {
                            assert(some[k]@.len() == 0);
                        }
                    }
                }
            }
        }
        if rows[r].len() > 0 {
            empty = false;
        }
        r = r + 1;
    }
    proof {
        assert(rows@.take(r as int) =~= rows@);
    }
    if empty {
        2
    } else {
        w
    }
}

/// Shows one layer, given its keycodes row by row.
pub fn layer_lines(id: &str, layer: u8, cols: u8, rows: &Vec<Vec<u16>>) -> (lines: Vec<String>)
    ensures
        text::texts(lines@) == grid(id@, layer, cols, rows@),
{
    let width: usize = column_width_of(rows);
    let ghost w = column_width(rows@);
    let mut lines: Vec<String> = Vec::new();
    proof {
        assert(text::texts(lines@) =~= Seq::<Seq<char>>::empty());
    }
    let mut title: String = id.to_owned().concat(" layer ");
    push_dec(&mut title, layer as u64);
    title.append(":");
    push_text(&mut lines, title);
    let mut head: String = "     ".to_owned();
    let mut c: u8 = 0;
    while c < cols
        invariant
            c <= cols,
            width == w,
            head@ == headings(c as int, w),
        decreases cols - c,
    {
        let mut heading: String = "c".to_owned();
        push_dec(&mut heading, c as u64);
        head.append(" ");
        push_right(&mut head, heading.as_str(), width);
        c = c + 1;
    }
    push_text(&mut lines, head);
    let ghost top = seq![id@ + " layer "@ + text::dec(layer as nat) + ":"@, headings(cols as int, w)];
    let ghost body = Seq::new(
        rows@.len(),
        |r: int| row_text(r as nat, rows@[r]@, rows@[r]@.len() as int, w),
    );
    proof {
        assert(text::texts(lines@) =~= top + body.take(0));
    }
    let mut r: usize = 0;
    while r < rows.len()
        invariant
            r <= rows@.len(),
            width == w,
            body == Seq::new(
                rows@.len(),
                |r: int| row_text(r as nat, rows@[r]@, rows@[r]@.len() as int, w),
            ),
            text::texts(lines@) == top + body.take(r as int),
        decreases rows@.len() - r,
    {
        let codes: &Vec<u16> = &rows[r];
        let mut line: String = "  r".to_owned();
        push_dec(&mut line, r as u64);
        line.append(" ");
        let mut i: usize = 0;
        while i < codes.len()
            invariant
                i <= codes@.len(),
                width == w,
                line@ == row_text(r as nat, codes@, i as int, w),
            decreases codes@.len() - i,
        {
            let label: String = short_label(codes[i]);
            line.append(" ");
            push_right(&mut line, label.as_str(), width);
            i = i + 1;
        }
        push_text(&mut lines, line);
        proof {
            assert(body.take(r + 1) =~= body.take(r as int).push(body[r as int]));
            assert(text::texts(lines@) =~= top + body.take(r + 1));
        }
        r = r + 1;
    }
    push_text(&mut lines, String::new());
    proof {
        assert(body.take(r as int) =~= body);
        assert(text::texts(lines@) =~= grid(id@, layer, cols, rows@));
    }
    lines
}

/// What is said once a key has been assigned.
pub fn assigned_line(id: &str, layer: u8, row: u8, col: u8, keycode: u16) -> (out: String)
    ensures
        out@ == id@ + ": layer "@ + text::dec(layer as nat) + ", row "@ + text::dec(row as nat) + ", col "@ + text::dec(
            col as nat,
        ) + " ← "@ + keycodes::described(keycode),
{
    let mut out: String = id.to_owned().concat(": layer ");
    push_dec(&mut out, layer as u64);
    out.append(", row ");
    push_dec(&mut out, row as u64);
    out.append(", col ");
    push_dec(&mut out, col as u64);
    out.append(" ← ");
    out.append(describe(keycode).as_str());
    out
}

/// What the other spellings of a key read.
pub open spec fn alias_texts(i: int) -> Seq<Seq<char>> {
    Seq::new(keycodes::aliases(i).len(), |j: int| keycodes::aliases(i)[j]@)
}

/// The line of row `i` in the list of key names.
pub open spec fn key_line(i: int) -> Seq<char> {
    let start = keycodes::hex_text(ROWS@[i].0) + "  "@ + ROWS@[i].1@;
    if keycodes::aliases(i).len() == 0 {
        start
    } else {
        start + "  (also: "@ + text::joined(alias_texts(i), ", "@) + ")"@
    }
}

/// The filter lets row `i` pass.
pub open spec fn passes(i: int, filter: Option<Seq<char>>) -> bool {
    match filter {
        Some(f) => input::within(input::lowered(key_line(i)), input::lowered(f)),
        None => true,
    }
}

/// The lines of the first `n` rows that pass the filter.
pub open spec fn passing(filter: Option<Seq<char>>, n: int) -> Seq<Seq<char>>
    decreases n,
{
    if n <= 0 {
        Seq::empty()
    } else if passes(n - 1, filter) {
        passing(filter, n - 1).push(key_line(n - 1))
    } else {
        passing(filter, n - 1)
    }
}

/// What an optional filter reads.
pub open spec fn filter_text(filter: Option<&str>) -> Option<Seq<char>> {
    match filter {
        Some(f) => Some(f@),
        None => None,
    }
}

/// The line of row `i` in the list of key names.
fn key_line_of(key: &keycodes::Key, Ghost(i): Ghost<int>) -> (out: String)
    requires
        key.is_row(i),
    ensures
        out@ == key_line(i),
{
    let mut out: String = to_hex_text(key.code);
    out.append("  ");
    out.append(key.name);
    if key.aliases.len() == 0 {
        return out;
    }
    let ghost start = out@;
    let ghost all = alias_texts(i);
    let mut list: String = String::new();
    let mut j: usize = 0;
    proof {
        assert(all.take(0) =~= Seq::<Seq<char>>::empty());
    }
    while j < key.aliases.len()
        invariant
            all == alias_texts(i),
            key.aliases@ == keycodes::aliases(i),
            j <= key.aliases@.len(),
            list@ == text::joined(all.take(j as int), ", "@),
        decreases key.aliases@.len() - j,
    {
        if j > 0 {
            list.append(", ");
        }
        list.append(key.aliases[j]);
        proof {
            let more = all.take(j + 1);
            assert(more.drop_last() =~= all.take(j as int));
            assert(more.last() == key.aliases@[j as int]@);
            if j == 0 {
                assert(list@ =~= key.aliases@[0]@);
            }
        }
        j = j + 1;
    }
    proof {
        assert(all.take(j as int) =~= all);
    }
    out.append("  (also: ");
    out.append(list.as_str());
    out.append(")");
    out
}

/// The key names, all of them or those whose line has the filter in it.
pub fn key_lines(filter: Option<&str>) -> (lines: Vec<String>)
    ensures
        text::texts(lines@) == if passing(filter_text(filter), COUNT as int).len() == 0 {
            seq![NO_KEY_MATCHES@]
        } else {
            passing(filter_text(filter), COUNT as int)
        },
{
    let keys = keycodes::all();
    let ghost chosen = filter_text(filter);
    let mut lines: Vec<String> = Vec::new();
    let mut i: usize = 0;
    proof {
        assert(text::texts(lines@) =~= Seq::<Seq<char>>::empty());
    }
    while i < keys.len()
        invariant
            keys@.len() == COUNT,
            forall|k: int| 0 <= k < COUNT ==> (#[trigger] keys@[k]).is_row(k),
            chosen == filter_text(filter),
            i <= keys@.len(),
            text::texts(lines@) == passing(chosen, i as int),
        decreases keys@.len() - i,
    {
        let line: String = key_line_of(&keys[i], Ghost(i as int));
        let shown: bool = match filter {
            Some(f) => {
                let hay: String = to_lower(line.as_str());
                let needle: String = to_lower(f);
                contains(hay.as_str(), needle.as_str())
            },
            None => true,
        };
        if shown {
            push_text(&mut lines, line);
        }
        i = i + 1;
    }
    proof {
        assert(text::texts(lines@).len() == lines@.len());
    }
    if lines.len() == 0 {
        push_text(&mut lines, NO_KEY_MATCHES.to_owned());
        proof {
            assert(text::texts(lines@) =~= seq![NO_KEY_MATCHES@]);
        }
    }
    lines
}

proof fn rows_fit(codes: Seq<u16>, c: int)
    ensures
        0 <= c < codes.len() ==> keycodes::label(codes[c]).len() <= row_width(codes),
        codes.len() > 0 ==> exists|k: int|
            0 <= k < codes.len() && keycodes::label(#[trigger] codes[k]).len() == row_width(codes),
        codes.len() == 0 ==> row_width(codes) == 0,
    decreases codes.len(),
{
    if codes.len() > 0 {
        let before = codes.drop_last();
        let last = codes.len() - 1;
        rows_fit(before, c);
        assert(codes[last] == codes.last());
        if 0 <= c < last {
            assert(before[c] == codes[c]);
        }
        if row_width(codes) == keycodes::label(codes.last()).len() {
            assert(keycodes::label(codes[last]).len() == row_width(codes));
        } else if before.len() > 0 {
            let k = choose|k: int|
                0 <= k < before.len() && keycodes::label(#[trigger] before[k]).len() == row_width(before);
            assert(codes[k] == before[k]);
        }
    }
}

proof fn widest_fits(rows: Seq<Vec<u16>>, r: int)
    ensures
        0 <= r < rows.len() ==> row_width(rows[r]@) <= widest(rows),
        widest(rows) > 0 ==> exists|k: int| 0 <= k < rows.len() && row_width((#[trigger] rows[k])@) == widest(rows),
    decreases rows.len(),
{
    if rows.len() > 0 {
        let before = rows.drop_last();
        let last = rows.len() - 1;
        widest_fits(before, r);
        assert(rows[last] == rows.last());
        if 0 <= r < last {
            assert(before[r] == rows[r]);
        }
        if widest(rows) == row_width(rows.last()@) {
            assert(row_width(rows[last]@) == widest(rows));
        } else if widest(before) > 0 {
            let k = choose|k: int| 0 <= k < before.len() && row_width((#[trigger] before[k])@) == widest(before);
            assert(rows[k] == before[k]);
        }
    }
}

/// The columns are as wide as the longest label and no wider; without any label
/// they have two places.
pub proof fn columns_fit_their_labels(rows: Seq<Vec<u16>>, r: int, c: int)
    ensures
        0 <= r < rows.len() && 0 <= c < rows[r]@.len() ==> keycodes::label(rows[r]@[c]).len() <= column_width(rows),
        column_width(rows) > 0 && (exists|i: int| 0 <= i < rows.len() && (#[trigger] rows[i])@.len() > 0)
            ==> exists|i: int, k: int|
            0 <= i < rows.len() && 0 <= k < rows[i]@.len() && keycodes::label(#[trigger] rows[i]@[k]).len()
                == column_width(rows),
        (forall|i: int| 0 <= i < rows.len() ==> (#[trigger] rows[i])@.len() == 0) ==> column_width(rows) == 2,
{
    widest_fits(rows, r);
    if 0 <= r < rows.len() {
        rows_fit(rows[r]@, c);
        if 0 <= c < rows[r]@.len() {
            assert(!no_keys(rows));
        }
    }
    if exists|i: int| 0 <= i < rows.len() && (#[trigger] rows[i])@.len() > 0 {
        assert(!no_keys(rows));
        if widest(rows) > 0 {
            let i = choose|i: int| 0 <= i < rows.len() && row_width((#[trigger] rows[i])@) == widest(rows);
            rows_fit(rows[i]@, 0);
            let k = choose|k: int|
                0 <= k < rows[i]@.len() && keycodes::label(#[trigger] rows[i]@[k]).len() == row_width(rows[i]@);
            assert(keycodes::label(rows[i]@[k]).len() == column_width(rows));
        }
    }
}

/// A row of the grid begins with its number and has the labels of its keys in
/// columns of one width, each at the right of its column behind a space.
pub proof fn labels_stand_in_columns(r: nat, codes: Seq<u16>, n: int, width: nat, c: int)
    requires
        0 <= n <= codes.len(),
        forall|k: int| 0 <= k < n ==> keycodes::label(#[trigger] codes[k]).len() <= width,
    ensures
        ({
            let line = row_text(r, codes, n, width);
            let start = ("  r"@ + text::dec(r) + " "@).len();
            &&& line.take(start as int) == "  r"@ + text::dec(r) + " "@
            &&& line.len() == start + n * (width + 1)
            &&& 0 <= c < n ==> line.subrange(start + c * (width + 1), start + (c + 1) * (width + 1)) == " "@
                + text::right_aligned(keycodes::label(codes[c]), width)
        }),
    decreases n,
{
    reveal_strlit(" ");
    let start = ("  r"@ + text::dec(r) + " "@).len() as int;
    let line = row_text(r, codes, n, width);
    if n > 0 {
        labels_stand_in_columns(r, codes, n - 1, width, c);
        let before = row_text(r, codes, n - 1, width);
        text::fields_hold_text_and_spaces(keycodes::label(codes[n - 1]), width);
        assert(keycodes::label(codes[n - 1]).len() <= width);
        let w = width as int + 1;
        assert(n * w == (n - 1) * w + w) by (nonlinear_arith);
        assert(line.take(start) =~= before.take(start)) by {
            assert(0 <= (n - 1) * w) by (nonlinear_arith)
                requires
                    n >= 1,
                    w >= 1,
            ;
        }
        if 0 <= c < n {
            assert((c + 1) * w == c * w + w) by (nonlinear_arith);
            assert(0 <= c * w) by (nonlinear_arith)
                requires
                    c >= 0,
                    w >= 1,
            ;
            if c == n - 1 {
                assert(line.subrange(start + c * w, start + (c + 1) * w) =~= " "@ + text::right_aligned(
                    keycodes::label(codes[c]),
                    width,
                ));
            } else {
                assert((c + 1) * w <= (n - 1) * w) by (nonlinear_arith)
                    requires
                        c + 1 <= n - 1,
                        w >= 1,
                ;
                assert(line.subrange(start + c * w, start + (c + 1) * w) =~= before.subrange(
                    start + c * w,
                    start + (c + 1) * w,
                ));
            }
        }
    } else {
        assert(line.take(start) =~= line);
        assert(n * (width + 1) == 0) by (nonlinear_arith)
            requires
                n == 0,
        ;
    }
}

/// The headings number the columns from 0 on, behind five spaces, each at the right
/// of its column behind a space.
pub proof fn columns_are_numbered(n: int, width: nat)
    requires
        n >= 0,
    ensures
        headings(0, width) == "     "@,
        headings(n + 1, width) == headings(n, width) + " "@ + text::right_aligned("c"@ + text::dec(n as nat), width),
{
}

/// A layer is shown under a title with the device and the layer, then the headings,
/// one line for each row in order, and an empty line.
pub proof fn grids_show_every_row(id: Seq<char>, layer: u8, cols: u8, rows: Seq<Vec<u16>>, r: int)
    ensures
        ({
            let lines = grid(id, layer, cols, rows);
            let width = column_width(rows);
            &&& lines.len() == rows.len() + 3
            &&& lines[0] == id + " layer "@ + text::dec(layer as nat) + ":"@
            &&& lines[1] == headings(cols as int, width)
            &&& lines.last().len() == 0
            &&& 0 <= r < rows.len() ==> lines[2 + r] == row_text(
                r as nat,
                rows[r]@,
                rows[r]@.len() as int,
                width,
            )
        }),
{
}

/// A line of the list of keys is the code, which reads back, the name behind two
/// spaces, and the other spellings in brackets where there are any.
pub proof fn key_lines_tell_code_and_name(i: int)
    requires
        0 <= i < COUNT,
    ensures
        ({
            let line = key_line(i);
            let n = ROWS@[i].1@.len() as int;
            &&& line.len() >= 8 + n
            &&& input::number(line.take(6), 0xFFFF) == Some(ROWS@[i].0 as nat)
            &&& line.subrange(6, 8) == "  "@
            &&& line.subrange(8, 8 + n) == ROWS@[i].1@
            &&& keycodes::aliases(i).len() == 0 ==> line.len() == 8 + n
            &&& keycodes::aliases(i).len() > 0 ==> line.skip(8 + n) == "  (also: "@ + text::joined(
                alias_texts(i),
                ", "@,
            ) + ")"@
        }),
{
    reveal_strlit("0x");
    reveal_strlit("  ");
    let line = key_line(i);
    let code = ROWS@[i].0;
    let n = ROWS@[i].1@.len() as int;
    input::hexadecimals_read_back(code as nat, 4);
    crate::clackctl::parse::shown_codes_read_back(code);
    assert(line.take(6) =~= keycodes::hex_text(code));
    assert(line.subrange(6, 8) =~= "  "@);
    assert(line.subrange(8, 8 + n) =~= ROWS@[i].1@);
    if keycodes::aliases(i).len() > 0 {
        assert(line.skip(8 + n) =~= "  (also: "@ + text::joined(alias_texts(i), ", "@) + ")"@);
    }
}

/// Without a filter every key is listed, in order; a filter keeps the keys whose
/// line holds it, in any letter case, and drops the others.
pub proof fn filters_keep_matching_lines(filter: Option<Seq<char>>, n: int, i: int)
    requires
        0 <= n,
    ensures
        filter is None ==> passing(filter, n).len() == n && (0 <= i < n ==> passing(filter, n)[i] == key_line(i)),
        filter matches Some(f) ==> {
            let holds = input::within(input::lowered(key_line(n)), input::lowered(f));
            &&& holds ==> passing(filter, n + 1) == passing(filter, n).push(key_line(n))
            &&& !holds ==> passing(filter, n + 1) == passing(filter, n)
        },
        passing(filter, 0).len() == 0,
    decreases n,
{
    if n > 0 {
        filters_keep_matching_lines(filter, n - 1, i);
    }
}

/// A filter that is given is looked for as it is written, an empty one too.
pub proof fn filters_are_taken_as_written(f: &str)
    ensures
        filter_text(Some(f)) == Some(f@),
        filter_text(None) is None,
{
}

} // verus!
