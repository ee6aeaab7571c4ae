use castbell::registry::Registry;
use castbell::text::{
    chars_of, cut_all, cut_once, decimal_text, join3, join5, parse_u64, same_text, strip_prefix,
    strip_suffix, strip_trailing, trim, white_space,
};

const SAMPLES: [&str; 12] = [
    "",
    " ",
    "a",
    "a:b:c",
    ":",
    " \t a b \u{3000}\n",
    "//x//",
    "é:ü ",
    "+12",
    "18446744073709551615",
    "18446744073709551616",
    "12ms",
];

#[test]
fn text_functions_do_what_std_does() {
    for s in SAMPLES {
        assert_eq!(chars_of(s), s.chars().collect::<Vec<char>>());
        assert_eq!(cut_once(s, ':'), s.split_once(':'));
        assert_eq!(cut_all(s, ':'), s.split(':').map(String::from).collect::<Vec<_>>());
        assert_eq!(trim(s), s.trim());
        assert_eq!(strip_trailing(s, '/'), s.trim_end_matches('/'));
        assert_eq!(parse_u64(s), s.parse::<u64>().ok(), "{s}");
        for t in SAMPLES {
            assert_eq!(same_text(s, t), s == t);
            assert_eq!(strip_prefix(s, t), s.strip_prefix(t));
            assert_eq!(strip_suffix(s, t), s.strip_suffix(t));
        }
    }
}

#[test]
fn parse_u64_takes_digits_alone() {
    for s in ["+", "-", "-0", "++1", " 1", "1 ", "0x1", "1_0", "\u{661}", "00000000000000000000001"] {
        assert_eq!(parse_u64(s), s.parse::<u64>().ok(), "{s}");
    }
}

#[test]
fn white_space_is_that_of_unicode() {
    for c in '\0'..=char::MAX {
        assert_eq!(white_space(c), c.is_whitespace(), "{:?}", c);
    }
}

#[test]
fn joins_keep_order() {
    assert_eq!(join3("a", "b", "c"), "abc");
    assert_eq!(join5("a", "", "c", "d", "é"), "acdé");
}

#[test]
fn registry_holds_one_value_for_a_key() {
    let mut r: Registry<u8> = Registry::new();
    r.insert("a".into(), 1);
    r.insert("b".into(), 2);
    r.insert("a".into(), 3);
    assert_eq!(r.len(), 2);
    assert_eq!(r.get("a"), Some(&3));
    assert!(r.contains_key("b"));
    assert_eq!(r.remove("b"), Some(2));
    assert_eq!(r.remove("b"), None);
    assert_eq!(r.get("b"), None);
    assert_eq!((r.key(0), *r.value(0)), ("a", 3));
}

#[test]
fn decimal_text_is_what_std_writes() {
    for n in [0, 7, 10, 99, 100, 1787498999168, u64::MAX] {
        assert_eq!(decimal_text(n), n.to_string());
    }
}
