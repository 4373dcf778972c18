use bevy_simple_i18n::interpolate::interpolate;

fn run(input: &str, args: &[(&str, &str)]) -> String {
    let patterns: Vec<&str> = args.iter().map(|(k, _)| *k).collect();
    let values: Vec<String> = args.iter().map(|(_, v)| v.to_string()).collect();
    interpolate(input, &patterns, &values)
}

#[test]
fn replaces_adjacent_pattern() {
    assert_eq!(
        run("Hello, %{name}!", &[("name", "world")]),
        "Hello, world!"
    );
}

#[test]
fn replaces_multiple_distinct_patterns() {
    assert_eq!(
        run("%{a} + %{b} = %{c}", &[("a", "1"), ("b", "2"), ("c", "3")]),
        "1 + 2 = 3"
    );
}

#[test]
fn duplicate_pattern_names_first_match_wins() {
    assert_eq!(run("Hi %{a} %{a}", &[("a", "1"), ("a", "2")]), "Hi 1 1");
}

#[test]
fn unmatched_pattern_stays_verbatim_including_percent() {
    assert_eq!(run("Hi %{b}", &[("a", "1")]), "Hi %{b}");
    assert_eq!(run("Hi %{name}", &[]), "Hi %{name}");
}

#[test]
fn unclosed_pattern_leaves_input_untouched() {
    assert_eq!(run("Hi %{name", &[("name", "x")]), "Hi %{name");
}

#[test]
fn braces_without_percent_are_untouched() {
    assert_eq!(run("Hi {name}", &[("name", "x")]), "Hi {name}");
}

#[test]
fn divergence_percent_must_be_adjacent() {
    assert_eq!(run("% foo {a} bar", &[("a", "1")]), "% foo {a} bar");
}

#[test]
fn utf8_input_and_values_are_safe() {
    assert_eq!(
        run("%{name}さん、こんにちは", &[("name", "ベビー")]),
        "ベビーさん、こんにちは"
    );
    assert_eq!(run("你有%{count}隻貓", &[("count", "2")]), "你有2隻貓");
}

#[test]
fn value_containing_pattern_syntax_is_not_reinterpolated() {
    assert_eq!(run("%{a}", &[("a", "%{b}"), ("b", "x")]), "%{b}");
}

// ---- further cases ----

#[test]
fn pattern_without_value_stays_verbatim() {
    // More patterns than values: the extra pattern has no value.
    let patterns = vec!["a", "b"];
    let values = vec!["1".to_string()];
    assert_eq!(interpolate("%{a}%{b}", &patterns, &values), "1%{b}");
}

#[test]
fn no_values_leaves_text_unchanged() {
    let patterns = vec!["x"];
    let values: Vec<String> = vec![];
    let s = "a %{x} b %{y c";
    assert_eq!(interpolate(s, &patterns, &values), s);
}

#[test]
fn later_unclosed_pattern_keeps_the_rest() {
    assert_eq!(run("%{a} and %{a", &[("a", "1")]), "1 and %{a");
}

#[test]
fn empty_name_matches_empty_pattern() {
    assert_eq!(run("[%{}]", &[("", "e")]), "[e]");
}

#[test]
fn adding_a_duplicate_argument_changes_nothing() {
    let one = run("%{a}-%{b}", &[("a", "1"), ("b", "2")]);
    let two = run("%{a}-%{b}", &[("a", "1"), ("b", "2"), ("a", "9")]);
    assert_eq!(one, "1-2");
    assert_eq!(one, two);
}

#[test]
fn text_whose_patterns_all_miss_comes_back_unchanged() {
    let input = "Hi %{other}, {name} 100% and %{open";
    assert_eq!(run(input, &[("name", "Bob"), ("count", "3")]), input);
    // A name listed without a value is a miss too.
    assert_eq!(interpolate("Hi %{name}", &["name"], &[]), "Hi %{name}");
}
