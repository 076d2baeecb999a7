//! Text building blocks: numerals, ordering and appending.
//!
//! Messages are specified as sequences of characters, so every function here
//! says exactly which characters it produces.

use vstd::prelude::*;

verus! {

/// `String::push` appends one character and leaves the rest of the string alone.
pub assume_specification[ String::push ](s: &mut String, c: char)
    ensures
        final(s)@ == old(s)@.push(c),
;

/// What `{:?}` makes of a string: quotation marks around it, with the
/// characters escaped that `str`'s `Debug` escapes.
pub uninterp spec fn debug_form(s: Seq<char>) -> Seq<char>;

/// `format!("{:?}", s)`. The contract only says that the result depends on the
/// characters of `s` and on nothing else; it does not list the escapes.
#[verifier::external_body]
pub(crate) fn debug_text(s: &str) -> (out: String)
    ensures
        out@ == debug_form(s@),
{
    format!("{s:?}")
}

/// The lower-case hexadecimal digit for `d`.
pub open spec fn digit(d: nat) -> char {
    if d < 10 {
        ('0' as nat + d) as char
    } else {
        ('a' as nat + (d - 10) as nat) as char
    }
}

/// `n` in decimal, without leading zeros.
pub open spec fn dec(n: nat) -> Seq<char>
    decreases n,
{
    if n < 10 {
        seq![digit(n)]
    } else {
        dec(n / 10).push(digit(n % 10))
    }
}

/// The low `width` hexadecimal digits of `n`, most significant first.
pub open spec fn hex(n: nat, width: nat) -> Seq<char>
    decreases width,
{
    if width == 0 {
        Seq::empty()
    } else {
        hex(n / 16, (width - 1) as nat).push(digit(n % 16))
    }
}

/// Appends one hexadecimal digit.
pub fn push_digit(out: &mut String, d: u32)
    requires
        d < 16,
    ensures
        final(out)@ == old(out)@.push(digit(d as nat)),
{
    let c: char = match d {
        0 => '0',
        1 => '1',
        2 => '2',
        3 => '3',
        4 => '4',
        5 => '5',
        6 => '6',
        7 => '7',
        8 => '8',
        9 => '9',
        10 => 'a',
        11 => 'b',
        12 => 'c',
        13 => 'd',
        14 => 'e',
        _ => 'f',
    };
    out.push(c);
}

/// Appends `n` in decimal.
pub fn push_dec(out: &mut String, n: u64)
    ensures
        final(out)@ == old(out)@ + dec(n as nat),
    decreases n,
{
    if n >= 10 {
        push_dec(out, n / 10);
    }
    push_digit(out, (n % 10) as u32);
}

/// `n` shifted right by `k` hexadecimal digits.
spec fn shifted(n: nat, k: nat) -> nat
    decreases k,
{
    if k == 0 {
        n
    } else {
        shifted(n / 16, (k - 1) as nat)
    }
}

/// A shift by one digit more divides once more.
proof fn one_digit_more(n: nat, k: nat)
    ensures
        shifted(n, k + 1) == shifted(n, k) / 16,
    decreases k,
{
    reveal_with_fuel(shifted, 2);
    if k > 0 {
        one_digit_more(n / 16, (k - 1) as nat);
    }
}

/// A number of eight digits has zeros only above them.
proof fn nothing_above(n: nat, k: nat)
    requires
        n <= u32::MAX,
        k >= 8,
    ensures
        shifted(n, k) == 0,
    decreases k,
{
    if k > 8 {
        nothing_above(n, (k - 1) as nat);
        one_digit_more(n, (k - 1) as nat);
    } else {
        reveal_with_fuel(shifted, 9);
    }
}

/// Digits are written one by one, from the most significant on.
proof fn leading_digit(n: nat, width: nat)
    requires
        width > 0,
    ensures
        hex(n, width) == seq![digit(shifted(n, (width - 1) as nat) % 16)] + hex(n, (width - 1) as nat),
    decreases width,
{
    reveal_with_fuel(hex, 2);
    if width > 1 {
        leading_digit(n / 16, (width - 1) as nat);
        assert(hex(n, width) =~= seq![digit(shifted(n, (width - 1) as nat) % 16)] + hex(n, (width - 1) as nat));
    } else {
        assert(hex(n, width) =~= seq![digit(shifted(n, 0) % 16)] + hex(n, 0));
    }
}

/// Appends the low `width` hexadecimal digits of `n`.
pub fn push_hex(out: &mut String, n: u32, width: u32)
    ensures
        final(out)@ == old(out)@ + hex(n as nat, width as nat),
{
    let ghost whole = out@ + hex(n as nat, width as nat);
    let mut left: u32 = width;
    while left > 8
        invariant
            left <= width,
            whole == out@ + hex(n as nat, left as nat),
        decreases left,
    {
        proof {
            nothing_above(n as nat, (left - 1) as nat);
            leading_digit(n as nat, left as nat);
        }
        push_digit(out, 0);
        left = left - 1;
        proof {
            assert(whole =~= out@ + hex(n as nat, left as nat));
        }
    }
    push_low_digits(out, n, left);
}

/// Appends the low `width` hexadecimal digits of `n`, eight at most.
fn push_low_digits(out: &mut String, n: u32, width: u32)
    requires
        width <= 8,
    ensures
        final(out)@ == old(out)@ + hex(n as nat, width as nat),
    decreases width,
{
    if width > 0 {
        push_low_digits(out, n / 16, width - 1);
        push_digit(out, n % 16);
    }
}

/// Lexicographic order on character sequences.
pub open spec fn before(a: Seq<char>, b: Seq<char>) -> bool
    decreases a.len(),
{
    if b.len() == 0 {
        false
    } else if a.len() == 0 {
        true
    } else {
        a[0] < b[0] || (a[0] == b[0] && before(a.skip(1), b.skip(1)))
    }
}

/// The order is irreflexive, asymmetric, transitive and total.
pub proof fn before_is_strict_order(a: Seq<char>, b: Seq<char>, c: Seq<char>)
    ensures
        !before(a, a),
        before(a, b) ==> !before(b, a),
        before(a, b) && before(b, c) ==> before(a, c),
        a == b || before(a, b) || before(b, a),
    decreases a.len(),
{
    if a.len() > 0 {
        before_is_strict_order(
            a.skip(1),
            if b.len() > 0 {
                b.skip(1)
            } else {
                b
            },
            if c.len() > 0 {
                c.skip(1)
            } else {
                c
            },
        );
    }
    if a.len() == 0 && b.len() == 0 {
        assert(a =~= b);
    }
    if a.len() > 0 && b.len() > 0 && a[0] == b[0] && a.skip(1) == b.skip(1) {
        assert(a =~= seq![a[0]] + a.skip(1));
        assert(b =~= seq![b[0]] + b.skip(1));
    }
}

/// The characters of `s`.
pub fn chars_of(s: &str) -> (out: Vec<char>)
    ensures
        out@ == s@,
{
    let n: usize = s.unicode_len();
    let mut out: Vec<char> = Vec::new();
    let mut i: usize = 0;
    while i < n
        invariant
            n == s@.len(),
            i <= n,
            out@ == s@.take(i as int),
        decreases n - i,
    {
        let c: char = s.get_char(i);
        out.push(c);
        proof {
            assert(s@.take(i + 1) =~= s@.take(i as int).push(s@[i as int]));
        }
        i = i + 1;
    }
    proof {
        assert(s@.take(n as int) =~= s@);
    }
    out
}

/// How two strings compare.
#[derive(Clone, Copy, PartialEq, Eq, Structural, Debug)]
pub enum Sign {
    Less,
    Same,
    More,
}

/// Compares two strings in lexicographic order.
pub fn sign_of(a: &str, b: &str) -> (s: Sign)
    ensures
        s == Sign::Less <==> before(a@, b@),
        s == Sign::Same <==> a@ == b@,
        s == Sign::More <==> before(b@, a@),
{
    let x: Vec<char> = chars_of(a);
    let y: Vec<char> = chars_of(b);
    proof {
        before_is_strict_order(a@, b@, a@);
        assert(a@.skip(0) =~= a@);
        assert(b@.skip(0) =~= b@);
    }
    let mut i: usize = 0;
    while i < x.len() && i < y.len()
        invariant
            x@ == a@,
            y@ == b@,
            i <= x.len(),
            i <= y.len(),
            before(a@, b@) == before(a@.skip(i as int), b@.skip(i as int)),
            before(b@, a@) == before(b@.skip(i as int), a@.skip(i as int)),
            !(before(a@, b@) && before(b@, a@)),
            a@ == b@ || before(a@, b@) || before(b@, a@),
            a@ == b@ ==> !before(a@, b@),
        decreases x.len() - i,
    {
        proof {
            assert(a@.skip(i as int).skip(1) =~= a@.skip(i + 1));
            assert(b@.skip(i as int).skip(1) =~= b@.skip(i + 1));
        }
        if x[i] < y[i] {
            return Sign::Less;
        }
        if y[i] < x[i] {
            return Sign::More;
        }
        i = i + 1;
    }
    if i < y.len() {
        Sign::Less
    } else if i < x.len() {
        Sign::More
    } else {
        Sign::Same
    }
}

/// What each string reads.
pub open spec fn texts(strings: Seq<String>) -> Seq<Seq<char>> {
    Seq::new(strings.len(), |i: int| strings[i]@)
}

/// The parts, one after the other, with `separator` between them.
pub open spec fn joined(parts: Seq<Seq<char>>, separator: Seq<char>) -> Seq<char>
    decreases parts.len(),
{
    if parts.len() == 0 {
        Seq::empty()
    } else if parts.len() == 1 {
        parts[0]
    } else {
        joined(parts.drop_last(), separator) + separator + parts.last()
    }
}

/// Joins the parts.
pub fn join(parts: &[String], separator: &str) -> (out: String)
    ensures
        out@ == joined(texts(parts@), separator@),
{
    let mut out: String = String::new();
    let ghost all = texts(parts@);
    let mut i: usize = 0;
    proof {
        assert(all.take(0) =~= Seq::<Seq<char>>::empty());
    }
    while i < parts.len()
        invariant
            all == texts(parts@),
            i <= parts@.len(),
            out@ == joined(all.take(i as int), separator@),
        decreases parts@.len() - i,
    {
        if i > 0 {
            out.append(separator);
        }
        out.append(parts[i].as_str());
        proof {
            let more = all.take(i + 1);
            assert(more.drop_last() =~= all.take(i as int));
            assert(more.last() == parts@[i as int]@);
            if i == 0 {
                assert(out@ =~= parts@[0]@);
            }
        }
        i = i + 1;
    }
    proof {
        assert(all.take(i as int) =~= all);
    }
    out
}

/// Appends a string to a list of strings.
pub fn push_text(lines: &mut Vec<String>, line: String)
    ensures
        texts(final(lines)@) == texts(old(lines)@).push(line@),
{
    let ghost before = lines@;
    lines.push(line);
    proof {
        assert(texts(before.push(line)) =~= texts(before).push(line@));
    }
}

/// `n` times the character `c`.
pub open spec fn run(c: char, n: nat) -> Seq<char> {
    Seq::new(n, |i: int| c)
}

/// `s` at the right of a field of `width` characters.
pub open spec fn right_aligned(s: Seq<char>, width: nat) -> Seq<char> {
    run(' ', if s.len() < width { (width - s.len()) as nat } else { 0 }) + s
}

/// `s` at the left of a field of `width` characters.
pub open spec fn left_aligned(s: Seq<char>, width: nat) -> Seq<char> {
    s + run(' ', if s.len() < width { (width - s.len()) as nat } else { 0 })
}

/// Appends `n` times the character `c`.
pub fn push_run(out: &mut String, c: char, n: usize)
    ensures
        final(out)@ == old(out)@ + run(c, n as nat),
{
    let ghost start = out@;
    let mut i: usize = 0;
    proof {
        assert(out@ =~= start + run(c, 0));
    }
    while i < n
        invariant
            i <= n,
            out@ == start + run(c, i as nat),
        decreases n - i,
    {
        out.push(c);
        proof {
            assert(out@ =~= start + run(c, (i + 1) as nat));
        }
        i = i + 1;
    }
}

/// Appends `s` at the right of a field of `width` characters.
pub fn push_right(out: &mut String, s: &str, width: usize)
    ensures
        final(out)@ == old(out)@ + right_aligned(s@, width as nat),
{
    let ghost start = out@;
    let n: usize = s.unicode_len();
    if n < width {
        push_run(out, ' ', width - n);
    } else {
        proof {
            assert(start =~= start + run(' ', 0));
        }
    }
    out.append(s);
    proof {
        assert(out@ =~= start + right_aligned(s@, width as nat));
    }
}

/// Appends `s` at the left of a field of `width` characters.
pub fn push_left(out: &mut String, s: &str, width: usize)
    ensures
        final(out)@ == old(out)@ + left_aligned(s@, width as nat),
{
    let ghost start = out@;
    let n: usize = s.unicode_len();
    out.append(s);
    if n < width {
        push_run(out, ' ', width - n);
    }
    proof {
        assert(out@ =~= start + left_aligned(s@, width as nat));
    }
}

/// `n` in hexadecimal, without leading zeros.
pub open spec fn hex_digits(n: nat) -> Seq<char>
    decreases n,
{
    if n < 16 {
        seq![digit(n)]
    } else {
        hex_digits(n / 16).push(digit(n % 16))
    }
}

/// `n` in hexadecimal with at least `width` digits.
pub open spec fn hex_at_least(n: nat, width: nat) -> Seq<char> {
    let digits = hex_digits(n);
    run('0', if digits.len() < width { (width - digits.len()) as nat } else { 0 }) + digits
}

/// Appends `n` in hexadecimal, without leading zeros.
fn push_hex_digits(out: &mut String, n: u64)
    ensures
        final(out)@ == old(out)@ + hex_digits(n as nat),
    decreases n,
{
    if n >= 16 {
        push_hex_digits(out, n / 16);
    }
    push_digit(out, (n % 16) as u32);
}

/// Appends `n` in hexadecimal with at least `width` digits.
pub fn push_hex_at_least(out: &mut String, n: u64, width: usize)
    ensures
        final(out)@ == old(out)@ + hex_at_least(n as nat, width as nat),
{
    let ghost start = out@;
    let mut digits: String = String::new();
    push_hex_digits(&mut digits, n);
    proof {
        assert(digits@ =~= hex_digits(n as nat));
    }
    let len: usize = digits.as_str().unicode_len();
    if len < width {
        push_run(out, '0', width - len);
    }
    out.append(digits.as_str());
    proof {
        assert(out@ =~= start + hex_at_least(n as nat, width as nat));
    }
}

/// The digits are 0 to 9 and a to f, in this order.
pub proof fn digits_are_in_order(d: nat)
    requires
        d < 16,
    ensures
        d == 0 ==> digit(d) == '0',
        d == 10 ==> digit(d) == 'a',
        0 < d && d != 10 ==> digit(d) as u32 == digit((d - 1) as nat) as u32 + 1,
{
}

/// A field holds its text and spaces: at the right the spaces stand before the
/// text, at the left behind it, and a text that is too long is not cut.
pub proof fn fields_hold_text_and_spaces(s: Seq<char>, width: nat)
    ensures
        right_aligned(s, width).len() == if s.len() < width { width } else { s.len() },
        left_aligned(s, width).len() == right_aligned(s, width).len(),
        right_aligned(s, width).skip(right_aligned(s, width).len() - s.len()) == s,
        left_aligned(s, width).take(s.len() as int) == s,
        forall|i: int| 0 <= i < width - s.len() ==> #[trigger] right_aligned(s, width)[i] == ' ',
        forall|i: int| s.len() <= i < width ==> #[trigger] left_aligned(s, width)[i] == ' ',
{
    assert(right_aligned(s, width).skip(right_aligned(s, width).len() - s.len()) =~= s);
    assert(left_aligned(s, width).take(s.len() as int) =~= s);
}

/// Joined parts are the first, the separator, and the rest joined; there is no
/// separator before the first part or behind the last.
pub proof fn joining_puts_separators_between(first: Seq<char>, rest: Seq<Seq<char>>, separator: Seq<char>)
    ensures
        joined(Seq::<Seq<char>>::empty(), separator) == Seq::<char>::empty(),
        rest.len() == 0 ==> joined(seq![first] + rest, separator) == first,
        rest.len() > 0 ==> joined(seq![first] + rest, separator) == first + separator + joined(rest, separator),
    decreases rest.len(),
{
    let all = seq![first] + rest;
    if rest.len() > 0 {
        assert(all.drop_last() =~= seq![first] + rest.drop_last());
        assert(all.last() == rest.last());
        joining_puts_separators_between(first, rest.drop_last(), separator);
        if rest.len() == 1 {
            assert(all.drop_last() =~= seq![first]);
            assert(joined(all.drop_last(), separator) == first);
        } else {
            assert(joined(all, separator) =~= first + separator + joined(rest, separator));
        }
    }
}

/// Texts are ordered by their first difference: behind the same beginning the
/// smaller character comes first, and a text comes before every longer text that
/// begins with it.
pub proof fn the_first_difference_orders(start: Seq<char>, x: char, y: char, a: Seq<char>, b: Seq<char>)
    ensures
        x < y ==> before(start + seq![x] + a, start + seq![y] + b),
        before(start, start + seq![x] + a),
    decreases start.len(),
{
    let s = start + seq![x] + a;
    let t = start + seq![y] + b;
    if start.len() > 0 {
        let tail = start.skip(1);
        the_first_difference_orders(tail, x, y, a, b);
        assert(s[0] == start[0] && t[0] == start[0]);
        assert(s.skip(1) =~= tail + seq![x] + a);
        assert(t.skip(1) =~= tail + seq![y] + b);
    } else {
        assert(s[0] == x && t[0] == y);
    }
}

/// Strings read what they hold, in their order.
pub proof fn strings_read_what_they_hold(strings: Seq<String>, i: int)
    requires
        0 <= i < strings.len(),
    ensures
        texts(strings).len() == strings.len(),
        texts(strings)[i] == strings[i]@,
{
}

} // verus!
