use bevy_simple_i18n::parse::{join, parse_file, ParseError};
use bevy_simple_i18n::table::{merge_into, Table};

fn json(stem: &str, s: &str) -> Table {
    parse_file(stem, "json", s.as_bytes()).unwrap()
}

fn text(t: &Table, locale: &str, key: &str) -> String {
    t.lookup(locale, key)
        .unwrap_or_else(|| panic!("no text for ({locale}, {key})"))
        .clone()
}

fn has_locale(t: &Table, locale: &str) -> bool {
    t.get(locale).is_some()
}

#[test]
fn v1_uses_file_stem_as_locale() {
    let t = json("en", r#"{"hello": "Hello World"}"#);
    assert_eq!(text(&t, "en", "hello"), "Hello World");
    assert_eq!(t.len(), 1);
}

#[test]
fn v1_locale_is_last_dot_segment_of_stem() {
    let t = json("app.en", r#"{"hello": "x"}"#);
    assert!(has_locale(&t, "en"));
    assert!(!has_locale(&t, "app.en"));
}

#[test]
fn v1_flattens_nested_maps_to_dot_keys() {
    let t = json("en", r#"{"a": {"b": {"c": "deep"}}, "top": "flat"}"#);
    assert_eq!(text(&t, "en", "a.b.c"), "deep");
    assert_eq!(text(&t, "en", "top"), "flat");
}

#[test]
fn v1_literal_dot_keys_and_nested_maps_are_equivalent() {
    let t = json("en", r#"{"messages.hello": "Hi"}"#);
    assert_eq!(text(&t, "en", "messages.hello"), "Hi");
}

#[test]
fn v1_coerces_scalar_leaves_like_rust_i18n() {
    let t = json(
        "en",
        r#"{"n": null, "b": true, "f": false, "i": 1, "fl": 1.5, "arr": [1, 2]}"#,
    );
    assert_eq!(text(&t, "en", "n"), "");
    assert_eq!(text(&t, "en", "b"), "true");
    assert_eq!(text(&t, "en", "f"), "false");
    assert_eq!(text(&t, "en", "i"), "1");
    assert_eq!(text(&t, "en", "fl"), "1.5");
    assert_eq!(text(&t, "en", "arr"), "");
}

#[test]
fn v1_strips_the_version_marker_key() {
    let t = json("en", r#"{"_version": 1, "hello": "x"}"#);
    assert!(!t.get("en").unwrap().contains_key("_version"));
    assert_eq!(text(&t, "en", "hello"), "x");
}

#[test]
fn v2_detected_by_numeric_version_2() {
    let t = json(
        "anything",
        r#"{"_version": 2, "hello": {"en": "Hello", "ja": "こんにちは"}}"#,
    );
    assert_eq!(text(&t, "en", "hello"), "Hello");
    assert_eq!(text(&t, "ja", "hello"), "こんにちは");
    assert!(!has_locale(&t, "anything"), "v2 must ignore the file stem");
}

#[test]
fn v2_nested_maps_become_dot_joined_keys() {
    let t = json(
        "x",
        r#"{"_version": 2, "messages": {"hello": {"en": "Hi", "de": "Hallo"}}}"#,
    );
    assert_eq!(text(&t, "en", "messages.hello"), "Hi");
    assert_eq!(text(&t, "de", "messages.hello"), "Hallo");
}

#[test]
fn v2_with_no_entries_is_an_error() {
    let err = parse_file("x", "json", br#"{"_version": 2}"#).unwrap_err();
    assert!(matches!(err, ParseError::EmptyV2));
}

#[test]
fn string_version_2_is_not_v2() {
    let t = json("en", r#"{"_version": "2", "hello": {"ja": "x"}}"#);
    assert_eq!(text(&t, "en", "hello.ja"), "x");
}

#[test]
fn parse_error_reported_not_panicking() {
    assert!(parse_file("en", "json", b"{not json").is_err());
    assert!(matches!(
        parse_file("en", "wgsl", b"x").unwrap_err(),
        ParseError::UnsupportedExtension(_)
    ));
}

#[test]
fn yaml_v2_parses() {
    let src = "_version: 2\nhello:\n  en: Hello world\n  zh-TW: 你好世界\n";
    let t = parse_file("v2_example", "yml", src.as_bytes()).unwrap();
    assert_eq!(text(&t, "en", "hello"), "Hello world");
    assert_eq!(text(&t, "zh-TW", "hello"), "你好世界");
}

#[test]
fn toml_v1_parses() {
    let src = "hello = \"Hallo Welt\"\n[messages]\nbye = \"Tschüss\"\n";
    let t = parse_file("de", "toml", src.as_bytes()).unwrap();
    assert_eq!(text(&t, "de", "hello"), "Hallo Welt");
    assert_eq!(text(&t, "de", "messages.bye"), "Tschüss");
}

#[test]
fn merge_later_wins_on_scalar_conflicts_and_unions_the_rest() {
    let mut dst = json("en", r#"{"hello": "Hello World", "only_v1": "keep"}"#);
    let src = json(
        "x",
        r#"{"_version": 2, "hello": {"en": "Hello world", "ja": "こんにちは世界"}}"#,
    );
    merge_into(&mut dst, src);
    assert_eq!(text(&dst, "en", "hello"), "Hello world");
    assert_eq!(text(&dst, "en", "only_v1"), "keep");
    assert_eq!(text(&dst, "ja", "hello"), "こんにちは世界");
}

// ---- further cases ----

#[test]
fn yaml_extension_alias_is_accepted() {
    let t = parse_file("fr", "yaml", "bonjour: Salut\n".as_bytes()).unwrap();
    assert_eq!(text(&t, "fr", "bonjour"), "Salut");
}

#[test]
fn yaml_syntax_error_is_a_yaml_error() {
    let err = parse_file("fr", "yml", b"a: [unclosed").unwrap_err();
    assert!(matches!(err, ParseError::Yaml(_)));
}

#[test]
fn json_syntax_error_is_a_json_error() {
    let err = parse_file("en", "json", b"{not json").unwrap_err();
    assert!(matches!(err, ParseError::Json(_)));
}

#[test]
fn toml_invalid_utf8_is_a_utf8_error() {
    let err = parse_file("de", "toml", &[0xff, 0xfe, 0x00]).unwrap_err();
    assert!(matches!(err, ParseError::Utf8(_)));
}

#[test]
fn toml_syntax_error_is_a_toml_error() {
    let err = parse_file("de", "toml", b"= no key").unwrap_err();
    assert!(matches!(err, ParseError::Toml(_)));
}

#[test]
fn unsupported_extension_carries_the_extension() {
    match parse_file("en", "ini", b"x").unwrap_err() {
        ParseError::UnsupportedExtension(ext) => assert_eq!(ext, "ini"),
        other => panic!("unexpected error {other:?}"),
    }
}

#[test]
fn v1_stem_without_dot_is_the_locale() {
    let t = json("zh-TW", r#"{"hello": "你好"}"#);
    assert_eq!(text(&t, "zh-TW", "hello"), "你好");
}

#[test]
fn v1_non_map_root_gives_an_empty_locale() {
    let t = json("en", r#"["a", "b"]"#);
    assert_eq!(t.len(), 1);
    assert_eq!(t.get("en").unwrap().len(), 0);
}

#[test]
fn v2_ignores_non_string_leaves_and_top_level_strings() {
    let t = json(
        "x",
        r#"{"_version": 2, "top": "ignored", "n": {"en": 5}, "ok": {"en": "yes"}}"#,
    );
    assert_eq!(text(&t, "en", "ok"), "yes");
    assert!(t.lookup("en", "n").is_none());
    assert!(t.get("top").is_none());
    assert_eq!(t.len(), 1);
}

#[test]
fn join_adds_a_dot_only_after_a_prefix() {
    assert_eq!(join("", "a"), "a");
    assert_eq!(join("a", "b"), "a.b");
    assert_eq!(join("a.b", "c"), "a.b.c");
}

#[test]
fn merging_into_an_empty_table_copies_it() {
    let src = json("en", r#"{"a": "1", "b": "2"}"#);
    let mut dst = Table::new();
    merge_into(&mut dst, src);
    assert_eq!(text(&dst, "en", "a"), "1");
    assert_eq!(text(&dst, "en", "b"), "2");
    assert_eq!(dst.len(), 1);
}

#[test]
fn v1_nested_map_and_dotted_key_give_the_same_table() {
    let nested = json("app.en", r#"{"a": {"b": "deep"}}"#);
    let flat = json("app.en", r#"{"a.b": "deep"}"#);
    assert_eq!(text(&nested, "en", "a.b"), "deep");
    assert_eq!(text(&flat, "en", "a.b"), "deep");
    assert_eq!(nested.len(), flat.len());
    assert_eq!(nested.get("en").map(|m| m.len()), flat.get("en").map(|m| m.len()));
}
