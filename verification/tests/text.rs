use clackd::input::{contains, is_blank, parse_number, replace, same_ignoring_case, to_lower, to_upper, trim};
use clackd::sorted::SortedMap;
use clackd::text::{join, push_dec, push_hex, push_hex_at_least, push_left, push_right, sign_of, Sign};

#[test]
fn white_space_is_what_unicode_says() {
    for n in 0..=0x10ffffu32 {
        if let Some(c) = char::from_u32(n) {
            assert_eq!(is_blank(c), c.is_whitespace(), "U+{n:04X}");
        }
    }
}

#[test]
fn trimming_removes_white_space_at_the_ends() {
    for s in ["", "  ", "a", " a b\t", "\u{a0}x\u{2003}", "é "] {
        assert_eq!(trim(s), s.trim());
    }
}

#[test]
fn letters_change_case_and_other_characters_do_not() {
    for s in ["AbZ[`{", "é-Ü_9", ""] {
        assert_eq!(to_lower(s), s.to_ascii_lowercase());
        assert_eq!(to_upper(s), s.to_ascii_uppercase());
    }
    assert!(same_ignoring_case("KC_a", "kc_A"));
    assert!(!same_ignoring_case("É", "é"));
    assert_eq!(replace("a-b-", '-', '_'), "a_b_");
}

#[test]
fn substrings_are_found() {
    for (s, n) in [("hidraw10", "raw1"), ("abc", ""), ("", ""), ("abc", "abcd"), ("aab", "ab"), ("é", "e")] {
        assert_eq!(contains(s, n), s.contains(n), "{s} / {n}");
    }
}

#[test]
fn numbers_are_read_as_the_standard_library_reads_them() {
    let texts = ["", "+", "-", "0", "+7", "++7", "-7", "255", "256", "00012", "1 2", "ff", "FF", "+fF", "zz", "99999999999999999999999"];
    for s in texts {
        assert_eq!(parse_number(s, 10, 255), s.parse::<u8>().ok().map(u64::from), "{s}");
        assert_eq!(parse_number(s, 16, 0xffff), u16::from_str_radix(s, 16).ok().map(u64::from), "{s}");
        assert_eq!(parse_number(s, 10, u64::MAX), s.parse::<u64>().ok(), "{s}");
    }
    assert_eq!(parse_number("18446744073709551615", 10, u64::MAX), Some(u64::MAX));
}

#[test]
fn numbers_are_written() {
    let mut s = String::new();
    push_dec(&mut s, 18446744073709551615);
    push_hex(&mut s, 0x1a2b, 4);
    push_hex_at_least(&mut s, 0x1f, 4);
    push_hex_at_least(&mut s, 0x12345, 4);
    assert_eq!(s, "184467440737095516151a2b001f12345");
}

#[test]
fn hexadecimal_fields_may_be_of_any_width() {
    let mut s = String::new();
    push_hex(&mut s, 0xdeadbeef, 8);
    push_hex(&mut s, 0xdeadbeef, 3);
    push_hex(&mut s, 0x12, 11);
    push_hex(&mut s, 7, 0);
    assert_eq!(s, "deadbeefeef00000000012");
    let mut s = String::new();
    push_hex(&mut s, 0xf, 5_000_000);
    assert_eq!(s.len(), 5_000_000);
    assert!(s.ends_with("00f"));
}

#[test]
fn fields_are_padded() {
    let mut s = String::new();
    push_right(&mut s, "é", 3);
    push_left(&mut s, "ab", 3);
    push_left(&mut s, "abcd", 3);
    assert_eq!(s, "  éab abcd");
    assert_eq!(join(&["a".to_owned(), "b".to_owned(), String::new()], ", "), "a, b, ");
    assert_eq!(join(&[], ", "), "");
}

#[test]
fn strings_are_ordered() {
    let words = ["", "a", "ab", "b", "hidraw1", "hidraw10", "hidraw2", "é"];
    for (i, a) in words.iter().enumerate() {
        for (j, b) in words.iter().enumerate() {
            let expected = if i < j {
                Sign::Less
            } else if i > j {
                Sign::More
            } else {
                Sign::Same
            };
            assert_eq!(sign_of(a, b), expected);
        }
    }
}

#[test]
fn maps_keep_their_keys_in_order() {
    let mut m: SortedMap<String, u32> = SortedMap::new();
    for (k, v) in [("b", 2), ("a", 1), ("c", 3), ("b", 4)] {
        m.insert(k.to_owned(), v);
    }
    assert_eq!(m.len(), 3);
    assert_eq!(m.at(0), &("a".to_owned(), 1));
    assert_eq!(m.get(&"b".to_owned()), Some(&4));
    assert_eq!(m.remove(&"a".to_owned()), Some(1));
    assert_eq!(m.remove(&"a".to_owned()), None);
    assert!(!m.contains(&"a".to_owned()));
    m.clear();
    assert_eq!(m.len(), 0);
}
