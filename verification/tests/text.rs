//! Text and paths.

use display_studio::keyed::TextMap;
use display_studio::model::ProfileStore;
use display_studio::model::RulesStore;
use display_studio::paths::{app_file, FilePath};
use display_studio::text::{
    contains_text, join, pad_left, pad_right, parse_number, replace_char, same_ignoring_ascii_case,
    sort_texts, split_words, trim, write_decimal, write_hex, write_hex_number, write_signed,
};

#[test]
fn numbers_are_written_and_read() {
    assert_eq!(write_decimal(0), "0");
    assert_eq!(write_decimal(u64::MAX), "18446744073709551615");
    assert_eq!(write_signed(i64::MIN), "-9223372036854775808");
    assert_eq!(write_hex(0xAB, 4, true), "00AB");
    assert_eq!(write_hex(0xAB, 1, false), "ab");
    assert_eq!(write_hex_number(0x3), "0x03");
    assert_eq!(write_hex_number(0x123), "0x123");
    assert_eq!(parse_number("42", 10, 100), Some(42));
    assert_eq!(parse_number("+42", 10, 100), Some(42));
    assert_eq!(parse_number("101", 10, 100), None);
    assert_eq!(parse_number("", 10, 100), None);
    assert_eq!(parse_number("ff", 16, 255), Some(255));
    assert_eq!(parse_number("99999999999999999999999", 10, 0xFFFF_FFFF), None);
}

#[test]
fn text_is_trimmed_split_and_joined() {
    assert_eq!(trim("\u{2003} a b\t\n"), "a b");
    assert_eq!(split_words(" a  b\tc "), vec!["a", "b", "c"]);
    assert_eq!(
        join(&vec!["a".to_string(), "b".to_string()], ", "),
        "a, b"
    );
    assert_eq!(join(&vec![], ", "), "");
    assert_eq!(pad_right("ä", 3), "ä  ");
    assert_eq!(pad_left("7", 2, '0'), "07");
    assert_eq!(replace_char("a-b-c", '-', '_'), "a_b_c");
    assert!(contains_text("DEL U2720Q", "2720"));
    assert!(contains_text("x", ""));
    assert!(!contains_text("", "x"));
    assert!(same_ignoring_ascii_case("VCP", "vcp"));
    assert!(!same_ignoring_ascii_case("É", "é"));
}

#[test]
fn texts_are_sorted_by_character() {
    let v = ["b", "", "B", "ab", "a"].map(String::from).to_vec();
    assert_eq!(sort_texts(v), vec!["", "B", "a", "ab", "b"]);
}

#[test]
fn maps_keep_their_keys_in_order() {
    let mut m = TextMap::new();
    assert_eq!(m.insert("b".into(), 1), None);
    assert_eq!(m.insert("a".into(), 2), None);
    assert_eq!(m.insert("b".into(), 3), Some(1));
    assert_eq!(m.len(), 2);
    assert_eq!((m.key(0).as_str(), *m.value(0)), ("a", 2));
    assert_eq!(m.get("b"), Some(&3));
    assert_eq!(m.remove("a"), Some(2));
    assert_eq!(m.remove("a"), None);
    assert!(!m.is_empty());
}

#[test]
fn files_are_kept_below_the_data_directory() {
    assert_eq!(FilePath::of("/d").join("x").describe(), "/d/x");
    assert_eq!(FilePath::of("/d/").join("x").describe(), "/d/x");
    assert_eq!(FilePath::of("").join("x").describe(), "x");
    assert_eq!(
        app_file(Some(FilePath::of("/data")), "x").describe(),
        "/data/DisplayStudio/x"
    );
    assert_eq!(app_file(None, "x").describe(), "/tmp/DisplayStudio/x");
    let profiles = ProfileStore::default_location();
    assert!(profiles.dir().bytes.ends_with(b"/DisplayStudio/profiles"));
    let rules = RulesStore::default_location();
    assert!(rules.path().bytes.ends_with(b"/DisplayStudio/rules.toml"));
}

/// Nothing says that a directory's name is Unicode.
#[test]
fn paths_keep_bytes_that_are_no_text() {
    let odd = FilePath { bytes: b"/home/\xff\xfe".to_vec() };
    let file = app_file(Some(odd), "x");
    assert_eq!(file.bytes, b"/home/\xff\xfe/DisplayStudio/x".to_vec());
    assert_eq!(file.describe(), "/home/\u{FFFD}\u{FFFD}/DisplayStudio/x");
    let store = ProfileStore::new(FilePath { bytes: b"\xff".to_vec() });
    assert_eq!(store.path_for("a").unwrap().bytes, b"\xff/a.toml".to_vec());
}
