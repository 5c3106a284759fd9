use parcli::numerals::{parse_i64, to_decimal, to_signed_decimal};
use parcli::order::text_not_after;
use parcli::text::{
    collapse_whitespace, concat2, concat3, contains_text, is_whitespace, pad_right, repeat_char, replace_text,
    same_text, to_ascii_lower, to_ascii_upper, trim, truncate_text,
};
use parcli::text_map::TextMap;

const SAMPLES: [&str; 12] = [
    "",
    " ",
    "a",
    " a ",
    "\u{a0}a b\u{3000}",
    "Hello, World",
    "ÀÉß straße",
    "aaa",
    "abcabcab",
    "\u{85}\u{2029}x\ty\n",
    "深圳 市",
    "zZ09@[`{",
];

#[test]
fn white_space_is_unicode_white_space() {
    for c in '\u{0}'..=char::MAX {
        assert_eq!(is_whitespace(c), c.is_whitespace(), "{c:?}");
    }
}

#[test]
fn texts_are_handled_as_the_standard_library_does() {
    for s in SAMPLES {
        assert_eq!(trim(s), s.trim());
        assert_eq!(to_ascii_upper(s), s.to_ascii_uppercase());
        assert_eq!(to_ascii_lower(s), s.to_ascii_lowercase());
        assert_eq!(collapse_whitespace(s), s.split_whitespace().collect::<Vec<_>>().join(" "));
        assert_eq!(pad_right(s, 5), format!("{s:<5}"));
        for t in SAMPLES {
            assert_eq!(contains_text(s, t), s.contains(t), "{s:?} {t:?}");
            assert_eq!(same_text(s, t), s == t);
            assert_eq!(text_not_after(s, t), s <= t, "{s:?} {t:?}");
            assert_eq!(concat2(s, t), format!("{s}{t}"));
            assert_eq!(concat3(s, "-", t), format!("{s}-{t}"));
            if !t.is_empty() {
                assert_eq!(replace_text(s, t, "<>"), s.replace(t, "<>"), "{s:?} {t:?}");
            }
        }
    }
    assert_eq!(repeat_char('\u{2014}', 3), "———");
    assert_eq!(truncate_text("深圳市", 2), "深…");
}

#[test]
fn overlapping_texts_are_replaced_from_the_left() {
    assert_eq!(replace_text("aaaaa", "aa", "b"), "bba");
    assert_eq!(replace_text("abab", "abab", ""), "");
}

#[test]
fn numbers_are_written_and_read() {
    for n in [0u64, 1, 9, 10, 101, u64::MAX] {
        assert_eq!(to_decimal(n), n.to_string());
    }
    for n in [0i64, 1, -1, 10, -10, 429, i64::MAX, i64::MIN] {
        assert_eq!(to_signed_decimal(n), n.to_string());
        assert_eq!(parse_i64(&n.to_string()), Some(n));
    }
    for s in ["", "+", "-", "+5", "-0", "00012", "1 ", " 1", "1.0", "0x1", "９", "9223372036854775808", "-9223372036854775809"] {
        assert_eq!(parse_i64(s), s.parse::<i64>().ok(), "{s:?}");
    }
}

#[test]
fn a_map_holds_one_value_for_each_text() {
    let mut m: TextMap<u32> = TextMap::new();
    assert_eq!(m.len(), 0);
    m.insert("a".to_string(), 1);
    m.insert("b".to_string(), 2);
    m.insert("a".to_string(), 3);
    assert_eq!(m.len(), 2);
    assert_eq!(m.get("a"), Some(&3));
    assert_eq!(m.get("A"), None);
    assert!(m.contains_key("b"));
    assert_eq!(m.pairs().iter().map(|p| p.0.as_str()).collect::<Vec<_>>(), vec!["b", "a"]);
    assert_eq!(m.remove("b"), Some(2));
    assert_eq!(m.remove("b"), None);
    assert_eq!(m.len(), 1);
}

#[test]
fn collapsing_keeps_the_words_and_single_spaces_between_them() {
    for s in SAMPLES {
        let r = collapse_whitespace(s);
        assert_eq!(r.split_whitespace().collect::<Vec<_>>(), s.split_whitespace().collect::<Vec<_>>());
        assert_eq!(r.split(' ').filter(|w| w.is_empty()).count(), usize::from(r.is_empty()));
        assert!(r.chars().all(|c| c == ' ' || !c.is_whitespace()));
    }
}

#[test]
fn no_text_is_longer_than_its_room() {
    for s in SAMPLES {
        for room in 0..16usize {
            let r = truncate_text(s, room);
            assert!(r.chars().count() <= room);
            assert_eq!(r == s, s.chars().count() <= room);
        }
    }
    assert_eq!(truncate_text("深圳市", 1), "…");
    assert_eq!(truncate_text("深圳市", 0), "");
}

#[test]
fn a_copy_of_a_map_holds_the_same() {
    let mut m: TextMap<u32> = TextMap::new();
    m.insert("a".into(), 1);
    m.insert("b".into(), 2);
    let copy = m.clone();
    m.remove("a");
    assert_eq!((copy.get("a"), copy.get("b"), copy.len()), (Some(&1), Some(&2), 2));
}
