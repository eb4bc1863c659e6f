//! Texts, JSON values, maps, times and pauses.

use subspace_daemon::clock::Timestamp;
use subspace_daemon::json::{empty_object, parse_json, text_array_json, Json, JsonNumber};
use subspace_daemon::retry::{double, next_backoff, offset_delay};
use subspace_daemon::sorted_map::SortedMap;
use subspace_daemon::text;

#[test]
fn texts_are_cut_and_searched() {
    assert_eq!(text::trim(" \t\u{3000}a b\u{2003}\n"), "a b");
    assert_eq!(text::trim("  "), "");
    for sample in ["", " ", "a", "\u{85}x\u{a0}", "\u{200b}x", "\u{1680}y\u{2028}"] {
        assert_eq!(text::trim(sample), sample.trim());
    }
    assert!(text::starts_with("abc", "ab"));
    assert!(!text::starts_with("a", "ab"));
    assert!(text::contains("abc", "b"));
    assert!(text::contains("abc", ""));
    assert!(!text::contains("abc", "ca"));
    assert_eq!(text::strip_prefix("~/x", "~/"), Some("x"));
    assert_eq!(text::strip_prefix("x", "~/"), None);
}

#[test]
fn texts_are_rewritten() {
    for (sample, from, to) in [("aaaa", "aa", "b"), ("aXbX", "X", "{{X}}"), ("", "a", "b")] {
        assert_eq!(text::replace(sample, from, to), sample.replace(from, to));
    }
    assert_eq!(text::to_lower_ascii("AbÄ"), "abÄ");
    assert_eq!(text::decimal_text(0), "0");
    assert_eq!(text::decimal_text(u128::MAX), u128::MAX.to_string());
    assert_eq!(text::hex_lower_text(&[0, 0xab, 0x10]), "00ab10");
    assert_eq!(
        text::join(&vec!["a".to_string(), "b".to_string(), "".to_string()], ", "),
        "a, b, "
    );
    assert_eq!(text::join(&Vec::new(), ", "), "");
}

#[test]
fn texts_are_ordered_as_by_std() {
    let samples = ["", "a", "aa", "b", "Z", "é", "\u{ffff}", "\u{10000}", "a\u{0}"];
    for a in samples {
        for b in samples {
            assert_eq!(text::is_before(a, b), a < b, "{:?} {:?}", a, b);
        }
    }
}

#[test]
fn json_is_read() {
    let value = parse_json(r#"{"a": [1, -2, 0.5, "x", null, true], "b": {"c": "d"}, "a2": 7}"#)
        .unwrap();
    let items = value.get_items("a").unwrap();
    assert_eq!(items.len(), 6);
    assert!(matches!(items[0], Json::Number(JsonNumber::Unsigned(1))));
    assert!(matches!(items[1], Json::Number(JsonNumber::Negative(-2))));
    assert!(matches!(&items[2], Json::Number(JsonNumber::Notation(text)) if text == "0.5"));
    assert_eq!(items[3].as_text(), Some("x"));
    assert!(matches!(items[4], Json::Null));
    assert!(matches!(items[5], Json::Bool(true)));
    assert_eq!(value.get("b").unwrap().get_text("c"), Some("d"));
    assert_eq!(value.get_text("a2"), None);
    assert_eq!(value.get_text_or("zz", "fallback"), "fallback");
    assert!(value.get("b").unwrap().has_text("c", "d"));
    assert!(parse_json("{").is_err());
}

#[test]
fn json_is_built() {
    let list = text_array_json(vec!["a".to_string(), "b".to_string()]);
    let value = empty_object().with_text("k", "v").with("list", list);
    assert_eq!(value.get_text("k"), Some("v"));
    assert_eq!(value.get_items("list").unwrap()[1].as_text(), Some("b"));
}

#[test]
fn maps_are_sorted_by_key() {
    let mut map: SortedMap<u32> = SortedMap::new();
    for (key, value) in [("b", 2), ("a", 1), ("c", 3), ("b", 20)] {
        map.insert(key.to_string(), value);
    }
    assert_eq!(map.len(), 3);
    assert_eq!(map.entry(0), ("a", &1));
    assert_eq!(map.get("b"), Some(&20));
    assert!(!map.contains_key("d"));
    assert_eq!(map.remove("a"), Some(1));
    assert_eq!(map.remove("a"), None);
    assert_eq!(map.into_values(), vec![20, 3]);
}

#[test]
fn times_are_read_and_written() {
    let instant = Timestamp::parse("2026-04-17T14:00:00.5+02:00").unwrap();
    assert_eq!(instant.format(), "2026-04-17T12:00:00.5Z");
    assert!(Timestamp::parse("yesterday").is_none());
    let later = instant.plus_ms(1_500);
    assert_eq!(later.format(), "2026-04-17T12:00:02Z");
    assert!(instant.is_before(&later));
    assert!(!later.is_before(&instant));
    assert_eq!(later.nanos_since(&instant), 1_500_000_000);
    assert!(Timestamp::from_unix_nanos(0).unwrap().format().starts_with("1970-01-01T00:00:00"));
    assert!(Timestamp::from_unix_nanos(i128::MAX).is_none());
}

#[test]
fn pauses_double_up_to_a_limit() {
    assert_eq!(double(3), 6);
    assert_eq!(double(u64::MAX), u64::MAX);
    assert_eq!(next_backoff(1_000, 60_000), 2_000);
    assert_eq!(next_backoff(40_000, 60_000), 60_000);
    assert_eq!(offset_delay(100, 20), 120);
    assert_eq!(offset_delay(100, -20), 80);
    assert_eq!(offset_delay(100, -200), 0);
}
