use bevy_simple_i18n::locale::{detected_locale, hyphenate, is_valid_locale_tag};
use bevy_simple_i18n::plugin::{merge_files, needs_rebuild, AssetChange, I18nPlugin};
use bevy_simple_i18n::table::Table;

#[test]
fn default_manifest_path_is_locales_i18n_ron() {
    assert_eq!(I18nPlugin::default().manifest_path, "locales/i18n.ron");
}

#[test]
fn with_manifest_keeps_the_given_path() {
    assert_eq!(I18nPlugin::with_manifest("i18n/manifest.ron").manifest_path, "i18n/manifest.ron");
}

#[test]
fn removal_alone_does_not_rebuild() {
    assert!(!needs_rebuild(&[AssetChange::Removed, AssetChange::Unused], 0));
    assert!(!needs_rebuild(&[], 0));
}

#[test]
fn added_modified_or_loaded_assets_rebuild() {
    assert!(needs_rebuild(&[AssetChange::Removed, AssetChange::Modified], 0));
    assert!(needs_rebuild(&[AssetChange::Added], 0));
    assert!(needs_rebuild(&[AssetChange::Unused, AssetChange::LoadedWithDependencies], 0));
}

#[test]
fn a_failed_file_rebuilds() {
    assert!(needs_rebuild(&[], 1));
}

#[test]
fn platform_tags_are_hyphenated_and_canonical() {
    assert_eq!(hyphenate("en_US"), "en-US");
    assert_eq!(detected_locale("en_US").as_deref(), Some("en-US"));
    assert_eq!(detected_locale("zh-TW").as_deref(), Some("zh-TW"));
}

#[test]
fn unparseable_platform_tags_are_dropped() {
    assert_eq!(detected_locale("not a locale!"), None);
    assert_eq!(detected_locale(""), None);
}

#[test]
fn locale_tags_are_validated() {
    assert!(is_valid_locale_tag("ja"));
    assert!(is_valid_locale_tag("zh-Hant-CN"));
    assert!(!is_valid_locale_tag("en_US"));
    assert!(!is_valid_locale_tag("!!"));
}

#[test]
fn merging_files_later_wins_and_skips_unloaded() {
    let mut first = Table::new();
    first.insert("en".to_string(), "hello".to_string(), "Hello".to_string());
    first.insert("en".to_string(), "bye".to_string(), "Bye".to_string());
    let mut second = Table::new();
    second.insert("en".to_string(), "hello".to_string(), "Hi".to_string());
    let merged = merge_files(vec![Some(first), None, Some(second)]);
    assert_eq!(merged.lookup("en", "hello").map(String::as_str), Some("Hi"));
    assert_eq!(merged.lookup("en", "bye").map(String::as_str), Some("Bye"));
    assert_eq!(merged.lookup("ja", "hello"), None);
}
