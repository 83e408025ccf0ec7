use jcode_core::text::{
    decimal_of, find, has, join_texts, lines_of, longer_than, parse_u64, split_on, str_le,
    stripped_prefix, stripped_suffix, trimmed, trimmed_end, trimmed_start, truncated, white_space,
};
use jcode_core::text_map::TextMap;

#[test]
fn white_space_is_what_std_says() {
    for c in (0..=0x10ffffu32).filter_map(char::from_u32) {
        assert_eq!(white_space(c), c.is_whitespace(), "{c:?}");
    }
}

#[test]
fn trimming_is_what_std_does() {
    for s in ["", " ", "a", " a b ", "\u{3000}x\u{85}", "\n\tq", "x\u{200b}"] {
        assert_eq!(trimmed(s), s.trim());
        assert_eq!(trimmed_start(s), s.trim_start());
        assert_eq!(trimmed_end(s), s.trim_end());
    }
}

#[test]
fn lines_and_pieces_are_what_std_gives() {
    for s in ["", "a", "a\n", "a\nb", "a\r\nb\r", "\n\n", "a\n\nb\n"] {
        assert_eq!(lines_of(s), s.lines().map(str::to_string).collect::<Vec<_>>(), "{s:?}");
        assert_eq!(
            split_on(s, '\n'),
            s.split('\n').map(str::to_string).collect::<Vec<_>>(),
            "{s:?}"
        );
        assert_eq!(join_texts(&split_on(s, '\n'), "\n"), s);
    }
}

#[test]
fn searching_is_what_std_does() {
    for (s, p) in [("abc", "b"), ("abc", ""), ("", "x"), ("aab", "ab"), ("abc", "abcd")] {
        assert_eq!(has(s, p), s.contains(p));
        assert_eq!(find(s, p), s.find(p));
        assert_eq!(stripped_prefix(s, p), s.strip_prefix(p));
        assert_eq!(stripped_suffix(s, p), s.strip_suffix(p));
    }
}

#[test]
fn numbers_are_what_std_reads_and_writes() {
    for n in [0u64, 9, 10, 65535, u64::MAX] {
        assert_eq!(decimal_of(n), n.to_string());
        assert_eq!(parse_u64(&n.to_string(), u64::MAX), Some(n));
    }
    for s in ["", "+", "+7", "-7", "7 ", "18446744073709551616", "007"] {
        assert_eq!(parse_u64(s, u64::MAX), s.parse::<u64>().ok(), "{s:?}");
    }
    assert_eq!(parse_u64("256", 255), None);
}

#[test]
fn cuts_are_at_characters() {
    assert_eq!(truncated("aé", 2), "a");
    assert_eq!(truncated("aé", 3), "aé");
    assert_eq!(truncated("", 0), "");
    assert!(longer_than("aé", 2));
    assert!(!longer_than("aé", 3));
}

#[test]
fn texts_are_ordered_as_by_std() {
    let words = ["", "a", "ab", "b", "é", "z", "\u{10000}", "\u{ffff}"];
    for a in words {
        for b in words {
            assert_eq!(str_le(a, b), a <= b, "{a:?} {b:?}");
        }
    }
}

#[test]
fn a_text_map_keeps_one_value_per_key() {
    let mut map: TextMap<u32> = TextMap::new();
    assert!(map.is_empty());
    assert_eq!(map.insert("a", 1), None);
    assert_eq!(map.insert("b", 2), None);
    assert_eq!(map.insert("a", 3), Some(1));
    assert_eq!(map.get("a"), Some(&3));
    let mut keys = map.keys();
    keys.sort();
    assert_eq!(keys, vec!["a", "b"]);
    assert_eq!(map.remove("a"), Some(3));
    assert_eq!(map.remove("a"), None);
    assert!(map.contains_key("b"));
}
