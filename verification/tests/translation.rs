//! The translation pipeline end to end: locale files are parsed, merged in
//! manifest order into the `I18n` state, and components render against it.
use bevy_simple_i18n::assets::{FontFamilyEntry, I18nManifest, TranslationFile};
use bevy_simple_i18n::components::{I18nComponent, I18nNumber, I18nText};
use bevy_simple_i18n::number::FixedDecimal;
use bevy_simple_i18n::parse::parse_file;
use bevy_simple_i18n::plugin::rebuild;
use bevy_simple_i18n::resources::{FontManager, I18n};

const EN_JSON: &str = r#"{
    "_version": 1,
    "hello": "Hello World",
    "text2d": "Hello World (Text2d)",
    "messages": { "hello": "Hello %{name}", "cats": "You have %{count} cats" },
    "cats": {
        "0": "You have no cats",
        "one": "You have %{count} cat",
        "other": "You have %{count} cats"
    }
}"#;
const JA_JSON: &str = r#"{ "_version": 1, "hello": "こんにちは" }"#;
const ZH_TW_JSON: &str = r#"{ "_version": 1, "hello": "你好" }"#;
const V2_EXAMPLE_YML: &str = "_version: 2
hello:
  en: Hello world
  ja: こんにちは世界
  zh-TW: 你好世界
  cs: Ahoj světe
  uk: Привіт світ
messages:
  hello:
    en: Hello, %{name}
";

/// The manifest's locale files, parsed, in manifest order.
fn locale_files() -> Vec<TranslationFile> {
    [
        ("en", "json", EN_JSON),
        ("ja", "json", JA_JSON),
        ("zh-TW", "json", ZH_TW_JSON),
        ("v2_example", "yml", V2_EXAMPLE_YML),
    ]
    .iter()
    .map(|(stem, ext, src)| TranslationFile::new(parse_file(stem, ext, src.as_bytes()).unwrap()))
    .collect()
}

fn manifest() -> I18nManifest {
    I18nManifest {
        default_locale: "en".to_string(),
        fallback: vec![],
        files: vec![
            "en.json".to_string(),
            "ja.json".to_string(),
            "zh-TW.json".to_string(),
            "v2_example.yml".to_string(),
        ],
        fonts: vec![FontFamilyEntry {
            family: "NotoSans".to_string(),
            dir: "fonts/NotoSans".to_string(),
            files: vec![
                "fallback.ttf".to_string(),
                "ja.ttf".to_string(),
                "zh-TW.ttf".to_string(),
            ],
        }],
    }
}

fn load(i18n: &mut I18n, files: &[TranslationFile]) -> FontManager {
    let tables = files.iter().map(|f| Some(f.table().copy())).collect();
    rebuild(i18n, &manifest(), tables, true)
}

fn ready_i18n() -> I18n {
    let mut i18n = I18n::default();
    load(&mut i18n, &locale_files());
    assert!(i18n.ready());
    i18n
}

fn fd(value: f64) -> Option<FixedDecimal> {
    fixed_decimal::Decimal::try_from_f64(value, fixed_decimal::FloatPrecision::RoundTrip)
        .ok()
        .and_then(|d| FixedDecimal::parse(&d.to_string()))
}

#[test]
fn translates_with_a_forced_locale() {
    let i18n = ready_i18n();
    let en = I18nText::new("hello").with_locale("en");
    let ja = I18nText::new("hello").with_locale("ja");

    assert_eq!(en.translate(&i18n), "Hello world");
    assert_eq!(ja.translate(&i18n), "こんにちは世界");
}

#[test]
fn updates_when_the_global_locale_changes() {
    let mut i18n = ready_i18n();
    let text = I18nText::new("hello");

    i18n.set_locale("en");
    assert_eq!(text.translate(&i18n), "Hello world");

    i18n.set_locale("ja");
    assert_eq!(text.translate(&i18n), "こんにちは世界");
}

// 2d text and rich-text spans render the same key-driven text as UI text; only
// the Bevy component they write into differs.
#[test]
fn text2d_updates_when_the_global_locale_changes() {
    let mut i18n = ready_i18n();
    let text2d = I18nText::new("hello");

    i18n.set_locale("en");
    assert_eq!(text2d.translate(&i18n), "Hello world");

    i18n.set_locale("ja");
    assert_eq!(text2d.translate(&i18n), "こんにちは世界");
}

#[test]
fn text_span_translates_and_updates_on_locale_change() {
    let mut i18n = ready_i18n();
    let span = I18nText::new("hello");

    i18n.set_locale("en");
    assert_eq!(span.translate(&i18n), "Hello world");

    i18n.set_locale("ja");
    assert_eq!(span.translate(&i18n), "こんにちは世界");
}

#[test]
fn interpolates_arguments() {
    let i18n = ready_i18n();
    let text = I18nText::new("messages.hello")
        .with_arg("name", "Bevy")
        .with_locale("en");

    assert_eq!(text.translate(&i18n), "Hello, Bevy");
}

#[test]
fn locale_truncation_chain_resolves_parent_locales() {
    let i18n = ready_i18n();
    let zh = I18nText::new("hello").with_locale("zh-TW-whatever");
    let en = I18nText::new("hello").with_locale("en-US");

    assert_eq!(zh.translate(&i18n), "你好世界");
    assert_eq!(en.translate(&i18n), "Hello world");
}

#[test]
fn underscore_locale_is_normalized_not_fatal() {
    let i18n = ready_i18n();
    let text = I18nText::new("hello").with_locale("ja_JP");

    assert_eq!(text.translate(&i18n), "こんにちは世界");
}

#[test]
fn invalid_locale_falls_back_to_global_not_panic() {
    let i18n = ready_i18n();
    let text = I18nText::new("hello").with_locale("not a locale!");

    assert_eq!(text.translate(&i18n), "Hello world");
}

#[test]
fn missing_key_echoes_the_key_verbatim() {
    let i18n = ready_i18n();
    let text = I18nText::new("does.not.exist").with_locale("en");

    assert_eq!(text.translate(&i18n), "does.not.exist");
}

#[test]
fn no_implicit_fallback_to_default_locale() {
    let i18n = ready_i18n();
    let text = I18nText::new("text2d").with_locale("ja");

    assert_eq!(text.translate(&i18n), "text2d");
}

#[test]
fn later_manifest_files_override_earlier_ones() {
    let i18n = ready_i18n();
    let text = I18nText::new("hello").with_locale("en");

    assert_eq!(text.translate(&i18n), "Hello world");
}

#[test]
fn unmatched_interpolation_pattern_stays_verbatim() {
    let i18n = ready_i18n();
    let text = I18nText::new("messages.hello").with_locale("en");

    assert_eq!(text.translate(&i18n), "Hello, %{name}");
}

#[test]
fn available_locales_are_sorted_and_complete() {
    let i18n = ready_i18n();
    let locales = i18n.locales();

    let mut sorted = locales.to_vec();
    sorted.sort();
    assert_eq!(locales, &sorted[..], "locales must be sorted ascending");
    for expected in ["en", "ja", "zh-TW", "cs", "uk"] {
        assert!(
            locales.iter().any(|l| l == expected),
            "expected locale {expected} in {locales:?}"
        );
    }
}

#[test]
fn default_locale_is_en_before_assets_arrive() {
    let i18n = I18n::default();
    assert_eq!(i18n.current(), "en");
}

#[test]
fn text_spawned_before_assets_load_self_heals() {
    let mut i18n = I18n::default();
    let text = I18nText::new("hello").with_locale("ja");
    assert_eq!(text.translate(&i18n), "hello", "pre-load render echoes the key");

    load(&mut i18n, &locale_files());
    assert_eq!(text.translate(&i18n), "こんにちは世界");
}

#[test]
fn modified_translation_assets_retranslate_live_text() {
    let mut files = locale_files();
    let mut i18n = I18n::default();
    load(&mut i18n, &files);
    let text = I18nText::new("hello").with_locale("ja");
    assert_eq!(text.translate(&i18n), "こんにちは世界");

    for file in files.iter_mut() {
        file.set_translation("ja", "hello", "アップデート済み");
    }
    load(&mut i18n, &files);
    assert_eq!(text.translate(&i18n), "アップデート済み");
}

#[test]
fn plural_categories_select_the_right_form() {
    let i18n = ready_i18n();
    let one = I18nText::new("cats").with_count(fd(1.0)).with_locale("en");
    let many = I18nText::new("cats").with_count(fd(3.0)).with_locale("en");

    assert_eq!(one.translate(&i18n), "You have 1 cat");
    assert_eq!(many.translate(&i18n), "You have 3 cats");
}

#[test]
fn non_finite_counts_do_not_panic() {
    let i18n = ready_i18n();
    let text = I18nText::new("cats").with_count(fd(f64::NAN)).with_locale("en");

    assert_eq!(text.translate(&i18n), "cats");
}

#[test]
fn exact_count_key_overrides_the_cldr_category() {
    let i18n = ready_i18n();
    let text = I18nText::new("cats").with_count(fd(0.0)).with_locale("en");

    assert_eq!(text.translate(&i18n), "You have no cats");
}

#[test]
fn numbers_localize_per_locale() {
    let i18n = ready_i18n();
    let en = I18nNumber::new(fd(24501.2)).with_locale("en");
    let de = I18nNumber::new(fd(24501.2)).with_locale("de");

    assert_eq!(en.translate(&i18n), "24,501.2");
    assert_eq!(de.translate(&i18n), "24.501,2");
}

#[test]
fn number_interpolation_arguments_are_localized() {
    let i18n = ready_i18n();
    let text = I18nText::new("messages.cats")
        .with_num_arg("count", fd(2000.3))
        .with_locale("en");

    assert_eq!(text.translate(&i18n), "You have 2,000.3 cats");
}

#[test]
fn set_num_arg_retranslates_live_text() {
    let i18n = ready_i18n();
    let mut text = I18nText::new("messages.cats")
        .with_num_arg("count", fd(1.0))
        .with_locale("en");
    assert_eq!(text.translate(&i18n), "You have 1 cats");

    text.set_num_arg("count", fd(2000.3));
    assert_eq!(text.translate(&i18n), "You have 2,000.3 cats");
}

#[test]
fn set_key_retranslates() {
    let i18n = ready_i18n();
    let mut text = I18nText::new("hello").with_locale("en");
    assert_eq!(text.translate(&i18n), "Hello world");

    text.set_key("text2d");
    assert_eq!(text.translate(&i18n), "Hello World (Text2d)");
}

#[test]
fn set_count_retranslates() {
    let i18n = ready_i18n();
    let mut text = I18nText::new("cats").with_count(fd(1.0)).with_locale("en");
    assert_eq!(text.translate(&i18n), "You have 1 cat");

    text.set_count(fd(3.0));
    assert_eq!(text.translate(&i18n), "You have 3 cats");
}

#[test]
fn set_number_reformats() {
    let i18n = ready_i18n();
    let mut number = I18nNumber::new(fd(1.5)).with_locale("de");
    assert_eq!(number.translate(&i18n), "1,5");

    number.set_number(fd(24501.2));
    assert_eq!(number.translate(&i18n), "24.501,2");
}

#[test]
fn invalid_set_locale_keeps_previous() {
    let i18n = ready_i18n();
    let mut text = I18nText::new("hello").with_locale("ja");
    assert_eq!(text.translate(&i18n), "こんにちは世界");

    text.set_locale("not a locale!");
    assert_eq!(text.translate(&i18n), "こんにちは世界");
}

#[test]
fn nan_number_renders_empty_not_panic() {
    let i18n = ready_i18n();
    let number = I18nNumber::new(fd(f64::NAN));

    assert_eq!(number.translate(&i18n), "");
}

#[test]
fn nan_num_arg_leaves_pattern_verbatim() {
    let i18n = ready_i18n();
    let text = I18nText::new("messages.cats")
        .with_num_arg("count", fd(f64::INFINITY))
        .with_locale("en");

    assert_eq!(text.translate(&i18n), "You have %{count} cats");
}

#[test]
fn dynamic_font_family_is_applied_from_the_manifest() {
    let mut i18n = I18n::default();
    let fonts = load(&mut i18n, &locale_files());
    let text = I18nText::new("hello").with_locale("ja");

    let font = fonts.get("NotoSans", text.locale(&i18n)).map(|(dir, file)| format!("{dir}/{file}"));
    let default_font: Option<String> = None;
    assert_ne!(
        format!("{font:?}"),
        format!("{default_font:?}"),
        "I18nFont should have swapped the font source for the ja locale"
    );
    assert_eq!(font.as_deref(), Some("fonts/NotoSans/ja.ttf"));
}

// ---- further cases ----

#[test]
fn set_locale_rejects_invalid_identifiers() {
    let mut i18n = ready_i18n();
    i18n.set_locale("ja");
    i18n.set_locale("not a locale!");
    assert_eq!(i18n.current(), "ja");
}

#[test]
fn explicit_locale_survives_a_reload() {
    let mut i18n = I18n::default();
    i18n.set_locale("ja");
    load(&mut i18n, &locale_files());
    assert_eq!(i18n.current(), "ja");
}

#[test]
fn detected_locale_is_used_when_shipped() {
    let mut i18n = I18n::default();
    i18n.set_detected("zh-TW-x-foo".to_string());
    load(&mut i18n, &locale_files());
    assert_eq!(i18n.current(), "zh-TW-x-foo");
    assert_eq!(i18n.detected(), Some("zh-TW-x-foo"));
    assert_eq!(I18nText::new("hello").translate(&i18n), "你好世界");
}

#[test]
fn detected_locale_is_ignored_when_not_shipped() {
    let mut i18n = I18n::default();
    i18n.set_detected("fr-FR".to_string());
    load(&mut i18n, &locale_files());
    assert_eq!(i18n.current(), "en");
}

#[test]
fn explicit_fallback_locales_are_tried_last() {
    let mut i18n = I18n::default();
    let mut m = manifest();
    m.fallback = vec!["en".to_string()];
    let tables = locale_files().iter().map(|f| Some(f.table().copy())).collect();
    rebuild(&mut i18n, &m, tables, true);
    assert_eq!(I18nText::new("text2d").with_locale("ja").translate(&i18n), "Hello World (Text2d)");
}

#[test]
fn private_use_tails_are_trimmed_in_the_chain() {
    let i18n = ready_i18n();
    assert_eq!(i18n.translate("ja-x-private", "hello"), Some("こんにちは世界"));
    assert_eq!(i18n.translate("xx", "hello"), None);
}

#[test]
fn unloaded_files_are_skipped() {
    let mut i18n = I18n::default();
    let files = locale_files();
    let tables = files
        .iter()
        .enumerate()
        .map(|(i, f)| if i == 3 { None } else { Some(f.table().copy()) })
        .collect();
    rebuild(&mut i18n, &manifest(), tables, false);
    assert!(!i18n.ready());
    assert_eq!(i18n.translate("en", "hello"), Some("Hello World"));
}

#[test]
fn font_lookup_walks_the_locale_chain_then_the_fallback() {
    let mut i18n = I18n::default();
    let fonts = load(&mut i18n, &locale_files());
    let path = |locale: &str| fonts.get("NotoSans", locale).map(|(d, f)| format!("{d}/{f}"));
    assert_eq!(path("zh-TW-Hant").as_deref(), Some("fonts/NotoSans/zh-TW.ttf"));
    assert_eq!(path("de").as_deref(), Some("fonts/NotoSans/fallback.ttf"));
    assert!(fonts.get("Unknown", "ja").is_none());
}

#[test]
fn user_count_argument_wins_over_the_injected_one() {
    let i18n = ready_i18n();
    let text = I18nText::new("cats")
        .with_count(fd(3.0))
        .with_arg("count", "three")
        .with_locale("en");
    assert_eq!(text.translate(&i18n), "You have three cats");
}
