//! Reading text: white space, letter case, substrings and numerals.

use vstd::prelude::*;

use crate::text::chars_of;

verus! {

/// A character with the Unicode property White_Space.
pub open spec fn blank(c: char) -> bool {
    ||| 0x9 <= c as u32 <= 0xd
    ||| c as u32 == 0x20
    ||| c as u32 == 0x85
    ||| c as u32 == 0xa0
    ||| c as u32 == 0x1680
    ||| 0x2000 <= c as u32 <= 0x200a
    ||| c as u32 == 0x2028
    ||| c as u32 == 0x2029
    ||| c as u32 == 0x202f
    ||| c as u32 == 0x205f
    ||| c as u32 == 0x3000
}

/// Tells white space from other characters.
pub fn is_blank(c: char) -> (b: bool)
    ensures
        b == blank(c),
{
    let n: u32 = c as u32;
    (0x9 <= n && n <= 0xd) || n == 0x20 || n == 0x85 || n == 0xa0 || n == 0x1680 || (0x2000 <= n && n <= 0x200a) || n
        == 0x2028 || n == 0x2029 || n == 0x202f || n == 0x205f || n == 0x3000
}

/// `s` without leading white space.
pub open spec fn trimmed_start(s: Seq<char>) -> Seq<char>
    decreases s.len(),
{
    if s.len() > 0 && blank(s[0]) {
        trimmed_start(s.skip(1))
    } else {
        s
    }
}

/// `s` without trailing white space.
pub open spec fn trimmed_end(s: Seq<char>) -> Seq<char>
    decreases s.len(),
{
    if s.len() > 0 && blank(s.last()) {
        trimmed_end(s.drop_last())
    } else {
        s
    }
}

/// `s` without leading and trailing white space.
pub open spec fn trimmed(s: Seq<char>) -> Seq<char> {
    trimmed_end(trimmed_start(s))
}

/// The characters from `from` up to `to`.
fn part(chars: &Vec<char>, from: usize, to: usize) -> (out: String)
    requires
        from <= to <= chars@.len(),
    ensures
        out@ == chars@.subrange(from as int, to as int),
{
    let mut out: String = String::new();
    let mut i: usize = from;
    while i < to
        invariant
            from <= i <= to <= chars@.len(),
            out@ == chars@.subrange(from as int, i as int),
        decreases to - i,
    {
        out.push(chars[i]);
        proof {
            assert(chars@.subrange(from as int, i + 1) =~= chars@.subrange(from as int, i as int).push(
                chars@[i as int],
            ));
        }
        i = i + 1;
    }
    out
}

/// The text without its first `n` characters.
pub fn without_first(s: &str, n: usize) -> (out: String)
    requires
        n <= s@.len(),
    ensures
        out@ == s@.skip(n as int),
{
    let chars: Vec<char> = chars_of(s);
    let out = part(&chars, n, chars.len());
    proof {
        assert(out@ =~= s@.skip(n as int));
    }
    out
}

/// Removes leading and trailing white space.
pub fn trim(s: &str) -> (out: String)
    ensures
        out@ == trimmed(s@),
{
    let chars: Vec<char> = chars_of(s);
    let n: usize = chars.len();
    let mut from: usize = 0;
    proof {
        assert(s@.skip(0) =~= s@);
    }
    while from < n && is_blank(chars[from])
        invariant
            chars@ == s@,
            n == s@.len(),
            from <= n,
            trimmed_start(s@) == trimmed_start(s@.skip(from as int)),
        decreases n - from,
    {
        proof {
            assert(s@.skip(from as int).skip(1) =~= s@.skip(from + 1));
        }
        from = from + 1;
    }
    let ghost rest = s@.skip(from as int);
    let mut to: usize = n;
    proof {
        assert(rest =~= s@.subrange(from as int, n as int));
    }
    while from < to && is_blank(chars[to - 1])
        invariant
            chars@ == s@,
            n == s@.len(),
            from <= to <= n,
            trimmed_end(rest) == trimmed_end(s@.subrange(from as int, to as int)),
        decreases to,
    {
        proof {
            let here = s@.subrange(from as int, to as int);
            assert(here.last() == s@[to - 1]);
            assert(here.drop_last() =~= s@.subrange(from as int, to - 1));
        }
        to = to - 1;
    }
    part(&chars, from, to)
}

/// `c` with an ASCII letter in upper case.
pub open spec fn upper(c: char) -> char {
    if 'a' <= c <= 'z' {
        (c as u32 - 32) as char
    } else {
        c
    }
}

/// `c` with an ASCII letter in lower case.
pub open spec fn lower(c: char) -> char {
    if 'A' <= c <= 'Z' {
        (c as u32 + 32) as char
    } else {
        c
    }
}

/// `s` with ASCII letters in upper case.
pub open spec fn uppered(s: Seq<char>) -> Seq<char> {
    Seq::new(s.len(), |i: int| upper(s[i]))
}

/// `s` with ASCII letters in lower case.
pub open spec fn lowered(s: Seq<char>) -> Seq<char> {
    Seq::new(s.len(), |i: int| lower(s[i]))
}

/// The same text, but for the case of ASCII letters.
pub open spec fn same_letters(a: Seq<char>, b: Seq<char>) -> bool {
    lowered(a) == lowered(b)
}

/// `s` with every `from` replaced by `to`.
pub open spec fn replaced(s: Seq<char>, from: char, to: char) -> Seq<char> {
    Seq::new(
        s.len(),
        |i: int|
            if s[i] == from {
                to
            } else {
                s[i]
            },
    )
}

/// Puts an ASCII letter in upper case.
pub fn upper_of(c: char) -> (u: char)
    ensures
        u == upper(c),
{
    if 'a' <= c && c <= 'z' {
        ((c as u32 - 32) as u8) as char
    } else {
        c
    }
}

/// Puts an ASCII letter in lower case.
pub fn lower_of(c: char) -> (l: char)
    ensures
        l == lower(c),
{
    if 'A' <= c && c <= 'Z' {
        ((c as u32 + 32) as u8) as char
    } else {
        c
    }
}

/// Puts the ASCII letters of `s` in upper case.
pub fn to_upper(s: &str) -> (out: String)
    ensures
        out@ == uppered(s@),
{
    let chars: Vec<char> = chars_of(s);
    let mut out: String = String::new();
    let mut i: usize = 0;
    while i < chars.len()
        invariant
            chars@ == s@,
            i <= chars@.len(),
            out@ == uppered(s@).take(i as int),
        decreases chars@.len() - i,
    {
        out.push(upper_of(chars[i]));
        proof {
            assert(uppered(s@).take(i + 1) =~= uppered(s@).take(i as int).push(upper(s@[i as int])));
        }
        i = i + 1;
    }
    proof {
        assert(uppered(s@).take(i as int) =~= uppered(s@));
    }
    out
}

/// Puts the ASCII letters of `s` in lower case.
pub fn to_lower(s: &str) -> (out: String)
    ensures
        out@ == lowered(s@),
{
    let chars: Vec<char> = chars_of(s);
    let mut out: String = String::new();
    let mut i: usize = 0;
    while i < chars.len()
        invariant
            chars@ == s@,
            i <= chars@.len(),
            out@ == lowered(s@).take(i as int),
        decreases chars@.len() - i,
    {
        out.push(lower_of(chars[i]));
        proof {
            assert(lowered(s@).take(i + 1) =~= lowered(s@).take(i as int).push(lower(s@[i as int])));
        }
        i = i + 1;
    }
    proof {
        assert(lowered(s@).take(i as int) =~= lowered(s@));
    }
    out
}

/// Replaces every `from` by `to`.
pub fn replace(s: &str, from: char, to: char) -> (out: String)
    ensures
        out@ == replaced(s@, from, to),
{
    let chars: Vec<char> = chars_of(s);
    let mut out: String = String::new();
    let mut i: usize = 0;
    while i < chars.len()
        invariant
            chars@ == s@,
            i <= chars@.len(),
            out@ == replaced(s@, from, to).take(i as int),
        decreases chars@.len() - i,
    {
        let ghost all = replaced(s@, from, to);
        if chars[i] == from {
            out.push(to);
        } else {
            out.push(chars[i]);
        }
        proof {
            assert(all.take(i + 1) =~= all.take(i as int).push(all[i as int]));
        }
        i = i + 1;
    }
    proof {
        assert(replaced(s@, from, to).take(i as int) =~= replaced(s@, from, to));
    }
    out
}

/// `a` is the text `b`.
pub fn same(a: &str, b: &str) -> (r: bool)
    ensures
        r == (a@ == b@),
{
    match crate::text::sign_of(a, b) {
        crate::text::Sign::Same => true,
        _ => false,
    }
}

/// Compares two texts without regard to the case of ASCII letters.
pub fn same_ignoring_case(a: &str, b: &str) -> (r: bool)
    ensures
        r == same_letters(a@, b@),
{
    let x: String = to_lower(a);
    let y: String = to_lower(b);
    same(x.as_str(), y.as_str())
}

/// `needle` stands in `s` at position `i`.
pub open spec fn stands_at(s: Seq<char>, needle: Seq<char>, i: int) -> bool {
    0 <= i && i + needle.len() <= s.len() && s.subrange(i, i + needle.len()) == needle
}

/// `needle` stands somewhere in `s`.
pub open spec fn within(s: Seq<char>, needle: Seq<char>) -> bool {
    exists|i: int| stands_at(s, needle, i)
}

/// Looks for `needle` in `s`.
pub fn contains(s: &str, needle: &str) -> (r: bool)
    ensures
        r == within(s@, needle@),
{
    let a: Vec<char> = chars_of(s);
    let b: Vec<char> = chars_of(needle);
    let n: usize = a.len();
    if b.len() > n {
        return false;
    }
    let mut i: usize = 0;
    while i <= n - b.len()
        invariant
            n == a@.len(),
            a@ == s@,
            b@ == needle@,
            b@.len() <= a@.len(),
            i <= a@.len() - b@.len() + 1,
            forall|k: int| 0 <= k < i ==> !stands_at(s@, needle@, k),
        decreases a@.len() + 1 - i,
    {
        let mut j: usize = 0;
        while j < b.len() && a[i + j] == b[j]
            invariant
                n == a@.len(),
                a@ == s@,
                b@ == needle@,
                i + b@.len() <= a@.len(),
                j <= b@.len(),
                forall|k: int| 0 <= k < j ==> a@[i + k] == b@[k],
            decreases b@.len() - j,
        {
            j = j + 1;
        }
        if j == b.len() {
            proof {
                assert(s@.subrange(i as int, i + needle@.len()) =~= needle@);
                assert(stands_at(s@, needle@, i as int));
            }
            return true;
        }
        proof {
            if stands_at(s@, needle@, i as int) {
                assert(s@.subrange(i as int, i + needle@.len())[j as int] == needle@[j as int]);
                assert(false);
            }
        }
        i = i + 1;
    }
    proof {
        assert forall|k: int| !stands_at(s@, needle@, k) by {
            if stands_at(s@, needle@, k) {
                assert(k < i);
            }
        }
    }
    false
}

/// The value of a digit in a radix of up to 36.
pub open spec fn digit_value(c: char, radix: nat) -> Option<nat> {
    let v = if '0' <= c <= '9' {
        (c as u32 - '0' as u32) as nat
    } else if 'a' <= c <= 'z' {
        (c as u32 - 'a' as u32 + 10) as nat
    } else if 'A' <= c <= 'Z' {
        (c as u32 - 'A' as u32 + 10) as nat
    } else {
        radix
    };
    if v < radix {
        Some(v)
    } else {
        None
    }
}

/// The value of a sequence of digits, if all of them are.
pub open spec fn digits_value(s: Seq<char>, radix: nat) -> Option<nat>
    decreases s.len(),
{
    if s.len() == 0 {
        Some(0)
    } else {
        match (digits_value(s.drop_last(), radix), digit_value(s.last(), radix)) {
            (Some(high), Some(low)) => Some(high * radix + low),
            _ => None,
        }
    }
}

/// The number that `s` writes: an optional plus sign and at least one digit, of
/// a value of at most `max`.
pub open spec fn numeral(s: Seq<char>, radix: nat, max: nat) -> Option<nat> {
    let digits = if s.len() > 0 && s[0] == '+' {
        s.skip(1)
    } else {
        s
    };
    if digits.len() == 0 {
        None
    } else {
        match digits_value(digits, radix) {
            Some(v) if v <= max => Some(v),
            _ => None,
        }
    }
}

/// More digits do not make a number smaller.
proof fn prefix_value(s: Seq<char>, n: int, radix: nat)
    requires
        0 <= n <= s.len(),
        radix >= 1,
        digits_value(s, radix) is Some,
    ensures
        digits_value(s.take(n), radix) is Some,
        digits_value(s.take(n), radix)->0 <= digits_value(s, radix)->0,
    decreases s.len(),
{
    if n == s.len() {
        assert(s.take(n) =~= s);
    } else {
        prefix_value(s.drop_last(), n, radix);
        assert(s.drop_last().take(n) =~= s.take(n));
        let high = digits_value(s.drop_last(), radix)->0;
        assert(high <= high * radix) by (nonlinear_arith)
            requires
                radix >= 1,
        ;
    }
}

/// The value of a digit.
fn digit_of(c: char, radix: u32) -> (v: Option<u32>)
    requires
        2 <= radix <= 36,
    ensures
        match digit_value(c, radix as nat) {
            Some(n) => v == Some(n as u32) && n < radix,
            None => v is None,
        },
{
    let v: u32 = if '0' <= c && c <= '9' {
        c as u32 - 0x30
    } else if 'a' <= c && c <= 'z' {
        c as u32 - 0x61 + 10
    } else if 'A' <= c && c <= 'Z' {
        c as u32 - 0x41 + 10
    } else {
        radix
    };
    if v < radix {
        Some(v)
    } else {
        None
    }
}

/// Reads a number.
pub fn parse_number(s: &str, radix: u32, max: u64) -> (v: Option<u64>)
    requires
        2 <= radix <= 36,
    ensures
        match numeral(s@, radix as nat, max as nat) {
            Some(n) => v == Some(n as u64) && n <= max,
            None => v is None,
        },
{
    let chars: Vec<char> = chars_of(s);
    let first: usize = if chars.len() > 0 && chars[0] == '+' {
        1
    } else {
        0
    };
    let ghost digits = s@.skip(first as int);
    proof {
        assert(s@.skip(0) =~= s@);
    }
    if chars.len() == first {
        return None;
    }
    let mut acc: u128 = 0;
    let mut i: usize = first;
    proof {
        assert(digits.take(0) =~= Seq::<char>::empty());
    }
    while i < chars.len()
        invariant
            chars@ == s@,
            2 <= radix <= 36,
            first <= i <= chars@.len(),
            digits == s@.skip(first as int),
            digits_value(digits.take(i - first), radix as nat) == Some(acc as nat),
            acc <= max,
            numeral(s@, radix as nat, max as nat) == match digits_value(digits, radix as nat) {
                Some(v) if v <= max => Some(v),
                _ => None,
            },
        decreases chars@.len() - i,
    {
        let ghost taken = digits.take(i - first);
        let ghost more = digits.take(i + 1 - first);
        proof {
            assert(more.drop_last() =~= taken);
            assert(more.last() == s@[i as int]);
            if digits_value(digits, radix as nat) is Some {
                prefix_value(digits, i + 1 - first, radix as nat);
            }
        }
        match digit_of(chars[i], radix) {
            Some(d) => {
                assert(acc * radix <= u64::MAX * 36) by (nonlinear_arith)
                    requires
                        acc <= u64::MAX,
                        radix <= 36,
                ;
                assert(acc * radix >= 0) by (nonlinear_arith)
                    requires
                        acc >= 0,
                        radix >= 0,
                ;
                acc = acc * (radix as u128) + d as u128;
            },
            None => {
                return None;
            },
        }
        if acc > max as u128 {
            return None;
        }
        i = i + 1;
    }
    proof {
        assert(digits.take(i - first) =~= digits);
    }
    Some(acc as u64)
}

/// What follows a `0x` or `0X`, if `s` starts with one.
pub open spec fn after_hex_prefix(s: Seq<char>) -> Option<Seq<char>> {
    if s.len() >= 2 && s[0] == '0' && (s[1] == 'x' || s[1] == 'X') {
        Some(s.skip(2))
    } else {
        None
    }
}

/// The number that `s` writes, in decimal or, after `0x`, in hexadecimal.
pub open spec fn number(s: Seq<char>, max: nat) -> Option<nat> {
    match after_hex_prefix(s) {
        Some(digits) => numeral(digits, 16, max),
        None => numeral(s, 10, max),
    }
}

/// Tells whether `s` starts with `0x` or `0X`.
pub fn has_hex_prefix(s: &str) -> (r: bool)
    ensures
        r == after_hex_prefix(s@) is Some,
{
    let chars: Vec<char> = chars_of(s);
    chars.len() >= 2 && chars[0] == '0' && (chars[1] == 'x' || chars[1] == 'X')
}

/// Reads a number in decimal or, after `0x`, in hexadecimal.
pub fn parse_any_number(s: &str, max: u64) -> (v: Option<u64>)
    ensures
        match number(s@, max as nat) {
            Some(n) => v == Some(n as u64) && n <= max,
            None => v is None,
        },
{
    if has_hex_prefix(s) {
        let digits: String = without_first(s, 2);
        parse_number(digits.as_str(), 16, max)
    } else {
        parse_number(s, 10, max)
    }
}

/// Letter case does not matter to trimming.
pub proof fn trimming_keeps_letters(a: Seq<char>, b: Seq<char>)
    requires
        same_letters(a, b),
    ensures
        same_letters(trimmed(a), trimmed(b)),
{
    start_keeps_letters(a, b);
    end_keeps_letters(trimmed_start(a), trimmed_start(b));
}

proof fn start_keeps_letters(a: Seq<char>, b: Seq<char>)
    requires
        same_letters(a, b),
    ensures
        same_letters(trimmed_start(a), trimmed_start(b)),
    decreases a.len(),
{
    assert(lowered(a).len() == a.len() && lowered(b).len() == b.len());
    if a.len() > 0 {
        assert(lowered(a)[0] == lower(a[0]));
        assert(lowered(b)[0] == lower(b[0]));
        assert(lowered(a.skip(1)) =~= lowered(a).skip(1));
        assert(lowered(b.skip(1)) =~= lowered(b).skip(1));
        start_keeps_letters(a.skip(1), b.skip(1));
    }
}

proof fn end_keeps_letters(a: Seq<char>, b: Seq<char>)
    requires
        same_letters(a, b),
    ensures
        same_letters(trimmed_end(a), trimmed_end(b)),
    decreases a.len(),
{
    assert(lowered(a).len() == a.len() && lowered(b).len() == b.len());
    if a.len() > 0 {
        assert(lowered(a).last() == lower(a.last()));
        assert(lowered(b).last() == lower(b.last()));
        assert(lowered(a.drop_last()) =~= lowered(a).drop_last());
        assert(lowered(b.drop_last()) =~= lowered(b).drop_last());
        end_keeps_letters(a.drop_last(), b.drop_last());
    }
}

/// Texts that differ in letter case only are the same in upper case.
pub proof fn same_in_upper_case(a: Seq<char>, b: Seq<char>)
    requires
        same_letters(a, b),
    ensures
        uppered(a) == uppered(b),
{
    assert(lowered(a).len() == a.len() && lowered(b).len() == b.len());
    assert forall|i: int| 0 <= i < a.len() implies upper(a[i]) == upper(b[i]) by {
        assert(lowered(a)[i] == lower(a[i]));
        assert(lowered(b)[i] == lower(b[i]));
    }
    assert(uppered(a) =~= uppered(b));
}

/// White space around a text is removed, and nothing else.
pub proof fn padding_is_trimmed(lead: Seq<char>, s: Seq<char>, trail: Seq<char>)
    requires
        forall|i: int| 0 <= i < lead.len() ==> blank(#[trigger] lead[i]),
        forall|i: int| 0 <= i < trail.len() ==> blank(#[trigger] trail[i]),
        s.len() > 0,
        !blank(s[0]),
        !blank(s.last()),
    ensures
        trimmed(lead + s + trail) == s,
    decreases lead.len() + trail.len(),
{
    if lead.len() > 0 {
        let all = lead + s + trail;
        assert(all[0] == lead[0]);
        assert(all.skip(1) =~= lead.skip(1) + s + trail);
        padding_is_trimmed(lead.skip(1), s, trail);
    } else if trail.len() > 0 {
        let all = lead + s + trail;
        assert(all[0] == s[0]);
        assert(all.last() == trail.last());
        assert(all.drop_last() =~= lead + s + trail.drop_last());
        assert((lead + s + trail.drop_last())[0] == s[0]);
        padding_is_trimmed(lead, s, trail.drop_last());
    } else {
        assert(lead + s + trail =~= s);
    }
}

/// The white space that is known: tab to carriage return and the space, the next
/// line, the no-break space, and eight more places up to the ideographic space.
pub proof fn white_space_characters(c: char)
    ensures
        c as u32 <= 0x7F ==> (blank(c) <==> c == ' ' || '\t' <= c <= '\r'),
        0x80 <= c as u32 <= 0xFF ==> (blank(c) <==> c as u32 == 0x85 || c as u32 == 0xA0),
        c as u32 > 0xFF ==> (blank(c) <==> c as u32 == 0x1680 || 0x2000 <= c as u32 <= 0x200A || c as u32 == 0x2028
            || c as u32 == 0x2029 || c as u32 == 0x202F || c as u32 == 0x205F || c as u32 == 0x3000),
{
}

/// Of a text of white space nothing is left.
pub proof fn white_space_is_trimmed_away(s: Seq<char>)
    requires
        forall|i: int| 0 <= i < s.len() ==> blank(#[trigger] s[i]),
    ensures
        trimmed(s) == Seq::<char>::empty(),
    decreases s.len(),
{
    if s.len() > 0 {
        white_space_is_trimmed_away(s.skip(1));
        assert(trimmed_start(s) == trimmed_start(s.skip(1)));
    } else {
        assert(trimmed(s) =~= Seq::<char>::empty());
    }
}

/// The letters of the two cases correspond to each other in their order, and all
/// other characters have no case.
pub proof fn letters_have_two_cases(c: char)
    ensures
        'a' <= c <= 'z' ==> 'A' <= upper(c) <= 'Z' && upper(c) as u32 - 'A' as u32 == c as u32 - 'a' as u32 && lower(c)
            == c,
        'A' <= c <= 'Z' ==> 'a' <= lower(c) <= 'z' && lower(c) as u32 - 'a' as u32 == c as u32 - 'A' as u32 && upper(c)
            == c,
        !('a' <= c <= 'z') && !('A' <= c <= 'Z') ==> upper(c) == c && lower(c) == c,
        lower(upper(c)) == lower(c),
        upper(lower(c)) == upper(c),
{
}

/// A text changes its case character by character.
pub proof fn texts_change_case_by_characters(s: Seq<char>, c: char)
    ensures
        uppered(s.push(c)) == uppered(s).push(upper(c)),
        lowered(s.push(c)) == lowered(s).push(lower(c)),
        uppered(Seq::<char>::empty()) == Seq::<char>::empty(),
        lowered(Seq::<char>::empty()) == Seq::<char>::empty(),
{
    assert(uppered(s.push(c)) =~= uppered(s).push(upper(c)));
    assert(lowered(s.push(c)) =~= lowered(s).push(lower(c)));
    assert(uppered(Seq::<char>::empty()) =~= Seq::<char>::empty());
    assert(lowered(Seq::<char>::empty()) =~= Seq::<char>::empty());
}

/// Replacing leaves no other trace of the replaced character: it is gone from every
/// place, and what stood elsewhere stands there still.
pub proof fn replacing_replaces_everywhere(s: Seq<char>, from: char, to: char, i: int)
    requires
        0 <= i < s.len(),
    ensures
        replaced(s, from, to).len() == s.len(),
        s[i] == from ==> replaced(s, from, to)[i] == to,
        s[i] != from ==> replaced(s, from, to)[i] == s[i],
        from != to ==> !replaced(s, from, to).contains(from),
{
}

/// A text is within another exactly if something before it and something behind
/// it make the other.
pub proof fn within_is_part(s: Seq<char>, needle: Seq<char>)
    ensures
        within(s, needle) <==> exists|a: Seq<char>, b: Seq<char>| s == #[trigger] (a + needle + b),
{
    if within(s, needle) {
        let i = choose|i: int| stands_at(s, needle, i);
        let a = s.take(i);
        let b = s.skip(i + needle.len());
        assert(s =~= a + needle + b) by {
            assert forall|k: int| 0 <= k < s.len() implies s[k] == (a + needle + b)[k] by {
                if i <= k < i + needle.len() {
                    assert(s.subrange(i, i + needle.len())[k - i] == needle[k - i]);
                }
            }
        }
    }
    if exists|a: Seq<char>, b: Seq<char>| s == #[trigger] (a + needle + b) {
        let (a, b) = choose|a: Seq<char>, b: Seq<char>| s == #[trigger] (a + needle + b);
        let i = a.len() as int;
        assert(s.subrange(i, i + needle.len()) =~= needle);
        assert(stands_at(s, needle, i));
    }
}

/// The digits below ten are worth what they say, the letters go on from ten in
/// either case, and what is no digit of the radix has no value.
pub proof fn digit_values(c: char, radix: nat)
    requires
        2 <= radix <= 36,
    ensures
        digit_value(c, radix) matches Some(v) ==> v < radix,
        '0' <= c <= '9' && (c as u32 - '0' as u32) < radix ==> digit_value(c, radix) == Some(
            (c as u32 - '0' as u32) as nat,
        ),
        'a' <= c <= 'z' && (c as u32 - 'a' as u32 + 10) < radix ==> digit_value(c, radix) == Some(
            (c as u32 - 'a' as u32 + 10) as nat,
        ),
        digit_value(upper(c), radix) == digit_value(lower(c), radix),
        digit_value(c, 10) is Some <==> '0' <= c <= '9',
        digit_value(c, 16) is Some <==> '0' <= c <= '9' || 'a' <= c <= 'f' || 'A' <= c <= 'F',
{
}

/// A digit that is written is worth its number.
pub proof fn written_digits_read_back(d: nat)
    requires
        d < 16,
    ensures
        digit_value(crate::text::digit(d), 16) == Some(d),
        d < 10 ==> digit_value(crate::text::digit(d), 10) == Some(d),
        '0' <= crate::text::digit(d) <= '9' || 'a' <= crate::text::digit(d) <= 'f',
{
}

/// A number that is written in decimal reads back, and has no leading zero.
pub proof fn decimals_read_back(n: nat)
    ensures
        digits_value(crate::text::dec(n), 10) == Some(n),
        crate::text::dec(n).len() >= 1,
        n > 0 ==> crate::text::dec(n)[0] != '0',
        n < 10 <==> crate::text::dec(n).len() == 1,
    decreases n,
{
    reveal_with_fuel(digits_value, 2);
    written_digits_read_back(n % 10);
    if n < 10 {
        let s = crate::text::dec(n);
        assert(s.drop_last().len() == 0);
        assert(s.last() == crate::text::digit(n));
    } else {
        decimals_read_back(n / 10);
        let s = crate::text::dec(n);
        assert(s.drop_last() =~= crate::text::dec(n / 10));
        assert(s.last() == crate::text::digit(n % 10));
        assert((n / 10) * 10 + n % 10 == n);
    }
}

/// Digits without a leading zero are the decimal of the number that they read as.
pub proof fn read_decimals_are_written_back(s: Seq<char>)
    requires
        s.len() > 0,
        s[0] != '0' || s.len() == 1,
        digits_value(s, 10) is Some,
    ensures
        crate::text::dec(digits_value(s, 10)->0) == s,
        s[0] != '0' ==> digits_value(s, 10)->0 > 0,
    decreases s.len(),
{
    reveal_with_fuel(digits_value, 2);
    let d = digit_value(s.last(), 10)->0;
    assert(crate::text::digit(d) == s.last());
    if s.len() == 1 {
        assert(s.drop_last().len() == 0);
        assert(crate::text::dec(d) =~= s);
    } else {
        let high = s.drop_last();
        assert(high[0] == s[0]);
        read_decimals_are_written_back(high);
        let h = digits_value(high, 10)->0;
        let v = h * 10 + d;
        assert(v / 10 == h && v % 10 == d);
        assert(crate::text::dec(v) =~= high.push(s.last()));
        assert(high.push(s.last()) =~= s);
    }
}

/// A number of up to six hexadecimal digits reads back, if it is written with
/// enough of them, and takes as many characters as digits are asked for.
pub proof fn hexadecimals_read_back(n: nat, width: nat)
    ensures
        crate::text::hex(n, width).len() == width,
        digits_value(crate::text::hex(n, width), 16) is Some,
        n < 16 && width >= 1 || n < 256 && width >= 2 || n < 65536 && width >= 4 || n < 16777216 && width >= 6
            ==> digits_value(crate::text::hex(n, width), 16) == Some(n),
    decreases width,
{
    reveal_with_fuel(digits_value, 2);
    if width > 0 {
        hexadecimals_read_back(n / 16, (width - 1) as nat);
        written_digits_read_back(n % 16);
        let s = crate::text::hex(n, width);
        assert(s.drop_last() =~= crate::text::hex(n / 16, (width - 1) as nat));
        assert(s.last() == crate::text::digit(n % 16));
        small_hexadecimals(n, width);
    }
}

/// Numbers of up to six digits, digit by digit.
proof fn small_hexadecimals(n: nat, width: nat)
    ensures
        n < 16 && width >= 1 || n < 256 && width >= 2 || n < 65536 && width >= 4 || n < 16777216 && width >= 6
            ==> digits_value(crate::text::hex(n, width), 16) == Some(n),
{
    hexadecimal_value(n, width);
    if width >= 6 {
        assert(n < 16777216 ==> scaled_down(n, 6) == 0) by {
            reveal_with_fuel(scaled_down, 7);
        }
        scaled_down_stays_zero(n, 6, width);
    }
    if width >= 4 {
        assert(n < 65536 ==> scaled_down(n, 4) == 0) by {
            reveal_with_fuel(scaled_down, 5);
        }
        scaled_down_stays_zero(n, 4, width);
    }
    if width >= 2 {
        assert(n < 256 ==> scaled_down(n, 2) == 0) by {
            reveal_with_fuel(scaled_down, 3);
        }
        scaled_down_stays_zero(n, 2, width);
    }
    if width >= 1 {
        assert(n < 16 ==> scaled_down(n, 1) == 0) by {
            reveal_with_fuel(scaled_down, 2);
        }
        scaled_down_stays_zero(n, 1, width);
    }
}

/// What is left of `n` without its low `k` hexadecimal digits.
spec fn scaled_down(n: nat, k: nat) -> nat
    decreases k,
{
    if k == 0 {
        n
    } else {
        scaled_down(n / 16, (k - 1) as nat)
    }
}

proof fn scaled_down_stays_zero(n: nat, k: nat, more: nat)
    requires
        k <= more,
    ensures
        scaled_down(n, k) == 0 ==> scaled_down(n, more) == 0,
    decreases more,
{
    if k > 0 {
        scaled_down_stays_zero(n / 16, (k - 1) as nat, (more - 1) as nat);
    } else if more > 0 {
        if n == 0 {
            scaled_down_stays_zero(0, 0, (more - 1) as nat);
        }
    }
}

proof fn hexadecimal_value(n: nat, width: nat)
    ensures
        scaled_down(n, width) == 0 ==> digits_value(crate::text::hex(n, width), 16) == Some(n),
    decreases width,
{
    reveal_with_fuel(digits_value, 2);
    if width > 0 {
        hexadecimal_value(n / 16, (width - 1) as nat);
        written_digits_read_back(n % 16);
        let s = crate::text::hex(n, width);
        assert(s.drop_last() =~= crate::text::hex(n / 16, (width - 1) as nat));
        assert(s.last() == crate::text::digit(n % 16));
        assert((n / 16) * 16 + n % 16 == n);
    }
}

/// Hexadecimal digits are, in lower case, what is written for the number that they
/// read as.
pub proof fn read_hexadecimals_are_written_back(s: Seq<char>)
    requires
        digits_value(s, 16) is Some,
    ensures
        crate::text::hex(digits_value(s, 16)->0, s.len()) == lowered(s),
    decreases s.len(),
{
    reveal_with_fuel(digits_value, 2);
    if s.len() > 0 {
        let high = s.drop_last();
        read_hexadecimals_are_written_back(high);
        let h = digits_value(high, 16)->0;
        let d = digit_value(s.last(), 16)->0;
        let v = h * 16 + d;
        assert(v / 16 == h && v % 16 == d);
        assert(crate::text::digit(d) == lower(s.last()));
        assert(crate::text::hex(v, s.len()) =~= lowered(high).push(lower(s.last())));
        assert(lowered(s) =~= lowered(high).push(lower(s.last())));
    } else {
        assert(lowered(s) =~= Seq::<char>::empty());
    }
}

/// Leading zeros do not change a number, and letter case does not either.
pub proof fn leading_zeros_do_not_count(s: Seq<char>)
    ensures
        digits_value(seq!['0'] + s, 10) == digits_value(s, 10),
        digits_value(seq!['0'] + s, 16) == digits_value(s, 16),
        digits_value(uppered(s), 16) == digits_value(s, 16),
        digits_value(lowered(s), 16) == digits_value(s, 16),
    decreases s.len(),
{
    reveal_with_fuel(digits_value, 2);
    let padded = seq!['0'] + s;
    if s.len() > 0 {
        leading_zeros_do_not_count(s.drop_last());
        assert(padded.drop_last() =~= seq!['0'] + s.drop_last());
        assert(uppered(s).drop_last() =~= uppered(s.drop_last()));
        assert(lowered(s).drop_last() =~= lowered(s.drop_last()));
    } else {
        assert(padded.drop_last() =~= s);
        assert(uppered(s) =~= s && lowered(s) =~= s);
    }
}

/// A text is a number exactly if it is one digit or more, after one plus sign at
/// most, and the number is within its limit.
pub proof fn numerals_are_digits(s: Seq<char>, radix: nat, max: nat)
    requires
        2 <= radix <= 36,
    ensures
        numeral(Seq::<char>::empty(), radix, max) is None,
        s.len() > 0 && s[0] != '+' ==> {
            &&& numeral(seq!['+'] + s, radix, max) == numeral(s, radix, max)
            &&& numeral(s, radix, max) is Some <==> digits_value(s, radix) is Some && digits_value(s, radix)->0 <= max
            &&& numeral(s, radix, max) is Some ==> numeral(s, radix, max) == digits_value(s, radix)
        },
        numeral(seq!['+'], radix, max) is None,
        numeral(seq!['+', '+'] + s, radix, max) is None,
        digits_value(s, radix) is Some <==> forall|i: int|
            0 <= i < s.len() ==> digit_value(#[trigger] s[i], radix) is Some,
{
    assert((seq!['+'] + s).skip(1) =~= s);
    assert(seq!['+'].skip(1).len() == 0);
    let twice = seq!['+', '+'] + s;
    assert(twice.skip(1) =~= seq!['+'] + s);
    only_digits_have_a_value(s, radix);
    only_digits_have_a_value(twice.skip(1), radix);
    assert(twice.skip(1)[0] == '+');
}

proof fn only_digits_have_a_value(s: Seq<char>, radix: nat)
    ensures
        digits_value(s, radix) is Some <==> forall|i: int|
            0 <= i < s.len() ==> digit_value(#[trigger] s[i], radix) is Some,
    decreases s.len(),
{
    if s.len() > 0 {
        let high = s.drop_last();
        only_digits_have_a_value(high, radix);
        assert(forall|i: int| 0 <= i < high.len() ==> high[i] == s[i]);
        assert(s.last() == s[s.len() - 1]);
        if digits_value(high, radix) is None {
            let i = choose|i: int| 0 <= i < high.len() && digit_value(#[trigger] high[i], radix) is None;
            assert(digit_value(s[i], radix) is None);
        }
        if digits_value(s, radix) is Some {
            assert forall|i: int| 0 <= i < s.len() implies digit_value(#[trigger] s[i], radix) is Some by {
                if i < high.len() {
                    assert(digit_value(high[i], radix) is Some);
                }
            }
        }
    }
}

/// A number is hexadecimal exactly after `0x` or `0X`, and decimal otherwise.
pub proof fn prefixes_tell_the_radix(s: Seq<char>, max: nat)
    ensures
        number(seq!['0', 'x'] + s, max) == numeral(s, 16, max),
        number(seq!['0', 'X'] + s, max) == numeral(s, 16, max),
        !(s.len() >= 2 && s[0] == '0' && lower(s[1]) == 'x') ==> number(s, max) == numeral(s, 10, max),
{
    assert((seq!['0', 'x'] + s).skip(2) =~= s);
    assert((seq!['0', 'X'] + s).skip(2) =~= s);
}

/// A number that is written in hexadecimal with at least some digits reads back,
/// is filled up with zeros, and has no leading zero beyond those.
pub proof fn padded_hexadecimals_read_back(n: nat, width: nat)
    ensures
        digits_value(crate::text::hex_at_least(n, width), 16) == Some(n),
        crate::text::hex_at_least(n, width).len() >= width,
        crate::text::hex_at_least(n, width).len() > width && n > 0 ==> crate::text::hex_at_least(n, width)[0] != '0',
        width >= 1 && crate::text::hex_at_least(n, width).len() > width ==> n > 0,
{
    shortest_hexadecimals_read_back(n);
    let digits = crate::text::hex_digits(n);
    let zeros: nat = if digits.len() < width {
        (width - digits.len()) as nat
    } else {
        0
    };
    zeros_do_not_count(digits, zeros);
    if zeros == 0 {
        assert(crate::text::hex_at_least(n, width) =~= digits);
    }
}

proof fn zeros_do_not_count(s: Seq<char>, n: nat)
    ensures
        digits_value(crate::text::run('0', n) + s, 16) == digits_value(s, 16),
    decreases n,
{
    if n > 0 {
        zeros_do_not_count(s, (n - 1) as nat);
        leading_zeros_do_not_count(crate::text::run('0', (n - 1) as nat) + s);
        assert(crate::text::run('0', n) + s =~= seq!['0'] + (crate::text::run('0', (n - 1) as nat) + s));
    } else {
        assert(crate::text::run('0', n) + s =~= s);
    }
}

proof fn shortest_hexadecimals_read_back(n: nat)
    ensures
        digits_value(crate::text::hex_digits(n), 16) == Some(n),
        crate::text::hex_digits(n).len() >= 1,
        n > 0 ==> crate::text::hex_digits(n)[0] != '0',
        n < 16 <==> crate::text::hex_digits(n).len() == 1,
    decreases n,
{
    reveal_with_fuel(digits_value, 2);
    written_digits_read_back(n % 16);
    let s = crate::text::hex_digits(n);
    if n < 16 {
        assert(s.drop_last().len() == 0);
        assert(s.last() == crate::text::digit(n));
    } else {
        shortest_hexadecimals_read_back(n / 16);
        assert(s.drop_last() =~= crate::text::hex_digits(n / 16));
        assert(s.last() == crate::text::digit(n % 16));
        assert((n / 16) * 16 + n % 16 == n);
    }
}

/// Texts are the same but for letter case if they are as long and their characters
/// are, place by place.
pub proof fn letters_are_compared_in_place(a: Seq<char>, b: Seq<char>)
    ensures
        same_letters(a, b) <==> a.len() == b.len() && forall|i: int|
            0 <= i < a.len() ==> upper(#[trigger] a[i]) == upper(b[i]),
{
    assert(lowered(a).len() == a.len() && lowered(b).len() == b.len());
    if same_letters(a, b) {
        assert forall|i: int| 0 <= i < a.len() implies upper(#[trigger] a[i]) == upper(b[i]) by {
            assert(lowered(a)[i] == lower(a[i]));
            assert(lowered(b)[i] == lower(b[i]));
        }
    }
    if a.len() == b.len() && (forall|i: int| 0 <= i < a.len() ==> upper(#[trigger] a[i]) == upper(b[i])) {
        assert forall|i: int| 0 <= i < a.len() implies lowered(a)[i] == lowered(b)[i] by {
            assert(upper(a[i]) == upper(b[i]));
        }
        assert(lowered(a) =~= lowered(b));
    }
}

} // verus!
