use bevy_simple_i18n::number::FixedDecimal;
use bevy_simple_i18n::plural::resolve_plural_key;
use bevy_simple_i18n::resources::I18n;
use bevy_simple_i18n::table::Table;

fn f64_to_fd(value: f64) -> FixedDecimal {
    let d = fixed_decimal::Decimal::try_from_f64(value, fixed_decimal::FloatPrecision::RoundTrip)
        .expect("finite");
    FixedDecimal::parse(&d.to_string()).expect("plain decimal")
}

/// I18n whose `en` table has the given flat keys.
fn i18n_with(keys: &[&str]) -> I18n {
    let mut i18n = I18n::default();
    let mut table = Table::new();
    for k in keys {
        table.insert("en".to_string(), k.to_string(), format!("value-of-{k}"));
    }
    i18n.apply_table(table, "en", Vec::new(), true);
    i18n
}

#[test]
fn integral_count_prefers_the_exact_integer_sub_key() {
    let i18n = i18n_with(&["cats.0", "cats.one", "cats.other"]);
    assert_eq!(
        resolve_plural_key(&i18n, "en", "cats", &f64_to_fd(0.0)),
        "cats.0"
    );
}

#[test]
fn count_resolves_to_the_cldr_category() {
    let i18n = i18n_with(&["cats.one", "cats.other"]);
    assert_eq!(
        resolve_plural_key(&i18n, "en", "cats", &f64_to_fd(1.0)),
        "cats.one"
    );
    assert_eq!(
        resolve_plural_key(&i18n, "en", "cats", &f64_to_fd(2.0)),
        "cats.other"
    );
    assert_eq!(
        resolve_plural_key(&i18n, "en", "cats", &f64_to_fd(0.0)),
        "cats.other"
    );
}

#[test]
fn fractional_count_skips_exact_integer_keys() {
    let i18n = i18n_with(&["cats.1", "cats.one", "cats.other"]);
    assert_eq!(
        resolve_plural_key(&i18n, "en", "cats", &f64_to_fd(1.5)),
        "cats.other"
    );
}

#[test]
fn missing_category_falls_back_to_other_then_bare_key() {
    let only_other = i18n_with(&["cats.other"]);
    assert_eq!(
        resolve_plural_key(&only_other, "en", "cats", &f64_to_fd(1.0)),
        "cats.other"
    );

    let bare = i18n_with(&["cats"]);
    assert_eq!(
        resolve_plural_key(&bare, "en", "cats", &f64_to_fd(1.0)),
        "cats"
    );
}

#[test]
fn unknown_key_resolves_to_the_bare_key_for_the_usual_miss_echo() {
    let i18n = i18n_with(&["unrelated"]);
    assert_eq!(
        resolve_plural_key(&i18n, "en", "cats", &f64_to_fd(3.0)),
        "cats"
    );
}

#[test]
fn decimal_display_fallback_is_plain_notation() {
    let d = fixed_decimal::Decimal::try_from_f64(2503.1, fixed_decimal::FloatPrecision::RoundTrip)
        .expect("2503.1 is finite");
    assert_eq!(d.to_string(), "2503.1");
    assert_eq!(FixedDecimal::parse("2503.1").unwrap().digits(), "2503.1");
}

// ---- further cases ----

#[test]
fn polish_counts_use_few_and_many() {
    let mut i18n = I18n::default();
    let mut table = Table::new();
    for k in ["apples.one", "apples.few", "apples.many", "apples.other"] {
        table.insert("pl".to_string(), k.to_string(), k.to_string());
    }
    i18n.apply_table(table, "en", Vec::new(), true);
    assert_eq!(resolve_plural_key(&i18n, "pl", "apples", &f64_to_fd(1.0)), "apples.one");
    assert_eq!(resolve_plural_key(&i18n, "pl", "apples", &f64_to_fd(3.0)), "apples.few");
    assert_eq!(resolve_plural_key(&i18n, "pl", "apples", &f64_to_fd(5.0)), "apples.many");
}

#[test]
fn invalid_locale_skips_the_category_step() {
    let mut i18n = I18n::default();
    let mut table = Table::new();
    table.insert("not a locale!".to_string(), "cats.one".to_string(), "one".to_string());
    table.insert("not a locale!".to_string(), "cats.other".to_string(), "other".to_string());
    i18n.apply_table(table, "en", Vec::new(), true);
    assert_eq!(
        resolve_plural_key(&i18n, "not a locale!", "cats", &f64_to_fd(1.0)),
        "cats.other"
    );
}

#[test]
fn plural_keys_follow_the_locale_chain() {
    let i18n = i18n_with(&["cats.one", "cats.other"]);
    assert_eq!(resolve_plural_key(&i18n, "en-US", "cats", &f64_to_fd(1.0)), "cats.one");
}

#[test]
fn decimal_parse_rejects_non_numbers() {
    assert!(FixedDecimal::parse("abc").is_none());
    assert_eq!(FixedDecimal::parse("-0.50").unwrap().digits(), "-0.50");
}
