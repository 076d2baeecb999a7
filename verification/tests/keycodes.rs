use clackd::clackctl::keycodes::{all, by_code, by_name, describe, short_label};

#[test]
fn canonical_names_resolve() {
    assert_eq!(by_name("KC_A"), Some(0x0004));
    assert_eq!(by_name("KC_ENTER"), Some(0x0028));
    assert_eq!(by_name("KC_RIGHT_GUI"), Some(0x00E7));
}

#[test]
fn prefixless_and_case_insensitive_names_resolve() {
    assert_eq!(by_name("a"), Some(0x0004));
    assert_eq!(by_name("enter"), Some(0x0028));
    assert_eq!(by_name("Page-Up"), Some(0x004B));
    assert_eq!(by_name("left_shift"), Some(0x00E1));
}

#[test]
fn aliases_resolve() {
    assert_eq!(by_name("esc"), Some(0x0029));
    assert_eq!(by_name("bspc"), Some(0x002A));
    assert_eq!(by_name("lwin"), Some(0x00E3));
    assert_eq!(by_name("-"), Some(0x002D));
    assert_eq!(by_name("["), Some(0x002F));
}

#[test]
fn digits_resolve_to_number_row() {
    assert_eq!(by_name("1"), Some(0x001E));
    assert_eq!(by_name("0"), Some(0x0027));
}

#[test]
fn unknown_names_do_not_resolve() {
    assert_eq!(by_name("notakey"), None);
    assert_eq!(by_name("0x004C"), None);
    assert_eq!(by_name(""), None);
    assert_eq!(by_name("KC_"), None);
}

#[test]
fn describe_names_known_and_unknown() {
    assert_eq!(describe(0x0004), "KC_A (0x0004)");
    assert!(describe(0x5f00).contains("no name"));
    assert_eq!(describe(0x5f00), "0x5f00 (no name — quantum keycode?)");
}

#[test]
fn table_is_sorted_and_unique_by_code() {
    let keys = all();
    for pair in keys.windows(2) {
        assert!(
            pair[0].code < pair[1].code,
            "table out of order near {} / {}",
            pair[0].name,
            pair[1].name
        );
    }
}

#[test]
fn every_name_round_trips() {
    for k in all() {
        assert_eq!(by_name(k.name), Some(k.code), "name {} does not round-trip", k.name);
    }
}

#[test]
fn every_alias_reads_as_its_key() {
    for k in all() {
        for alias in &k.aliases {
            assert_eq!(by_name(alias), Some(k.code), "alias {alias}");
            assert_eq!(by_name(&alias.to_ascii_uppercase()), Some(k.code), "alias {alias}");
        }
    }
}

#[test]
fn white_space_around_names_is_ignored() {
    assert_eq!(by_name("  esc\t"), Some(0x0029));
    assert_eq!(by_name("\u{3000}kc_esc"), Some(0x0029));
}

#[test]
fn codes_are_found_with_all_their_spellings() {
    let k = by_code(0x00E3).unwrap();
    assert_eq!(k.name, "KC_LEFT_GUI");
    assert_eq!(k.short, "LGUI");
    assert_eq!(k.aliases, vec!["lgui", "lcmd", "lwin"]);
    assert!(by_code(0x0002).is_none());
    assert_eq!(all().len(), 147);
}

#[test]
fn labels_fit_the_grid() {
    for k in all() {
        assert!(!k.short.is_empty() && k.short.chars().count() <= 4, "label {}", k.short);
        assert_eq!(short_label(k.code), k.short);
    }
    assert_eq!(short_label(0x0000), "--");
    assert_eq!(short_label(0x5f01), "0x5f01");
}

#[test]
fn names_resolve_in_every_spelling() {
    for k in all() {
        let bare = &k.name[3..];
        for name in [k.name, bare] {
            let hyphens = name.replace('_', "-");
            for word in [name, hyphens.as_str()] {
                assert_eq!(by_name(word), Some(k.code), "{word}");
                assert_eq!(by_name(&word.to_ascii_lowercase()), Some(k.code), "{word}");
                assert_eq!(by_name(&format!(" \t{word}\u{2003}")), Some(k.code), "{word}");
            }
        }
        for alias in &k.aliases {
            assert_eq!(by_name(&format!("  {alias} ")), Some(k.code), "{alias}");
        }
    }
    assert_eq!(by_name("kc-page_UP"), Some(0x004B));
    assert_eq!(by_name("KC_ESC"), Some(0x0029));
    assert_eq!(by_name("_"), None);
}

#[test]
fn named_codes_are_listed() {
    for word in ["esc", "KC-A", "lwin", "-", "page-down"] {
        assert!(by_code(by_name(word).unwrap()).is_some(), "{word}");
    }
}
