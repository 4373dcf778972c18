//! CLDR plural-key resolution.
//!
//! Plural forms are ordinary sub-keys of the translation key, flattened like any
//! nested map. For a count, the key resolves in this order (each candidate goes
//! through the normal locale lookup chain):
//!
//! 1. exact integer sub-key — `cats.0`, `cats.1` (only for integral counts)
//! 2. CLDR category sub-key — `cats.one`, `cats.few`, `cats.many`, …
//! 3. `cats.other`
//! 4. the bare key — `cats` (so non-plural keys keep working with a count)
use vstd::prelude::*;

use icu_plurals::PluralCategory as IcuCategory;

use crate::number::FixedDecimal;
use crate::resources::{translation, I18n};

verus! {

/// The CLDR plural categories.
#[derive(PartialEq, Eq, Structural, Clone, Copy, Debug)]
pub enum PluralCategory {
    Zero,
    One,
    Two,
    Few,
    Many,
    Other,
}

/// The cardinal plural category `icu_plurals` assigns to the decimal written
/// `digits` in `locale`, or `None` when `locale` is not a locale identifier,
/// `digits` not a decimal, or no rules can be built.
pub uninterp spec fn cldr_category(locale: Seq<char>, digits: Seq<char>) -> Option<PluralCategory>;

/// Builds `icu_plurals::PluralRules::try_new_cardinal` for `locale` (parsed with
/// `icu_locale_core`) and calls `category_for` on `digits` (parsed with
/// `fixed_decimal`): the result is [`cldr_category`].
#[verifier::external_body]
fn plural_category(locale: &str, digits: &str) -> (r: Option<PluralCategory>)
    ensures
        r == cldr_category(locale@, digits@),
{
    let locale = locale.parse::<icu_locale_core::Locale>().ok()?;
    let value = fixed_decimal::Decimal::try_from_str(digits).ok()?;
    let rules = icu_plurals::PluralRules::try_new_cardinal((&locale).into()).ok()?;
    Some(match rules.category_for(&value) {
        IcuCategory::Zero => PluralCategory::Zero,
        IcuCategory::One => PluralCategory::One,
        IcuCategory::Two => PluralCategory::Two,
        IcuCategory::Few => PluralCategory::Few,
        IcuCategory::Many => PluralCategory::Many,
        IcuCategory::Other => PluralCategory::Other,
    })
}

/// The sub-key name of a category.
pub open spec fn category_name(c: PluralCategory) -> Seq<char> {
    match c {
        PluralCategory::Zero => seq!['z', 'e', 'r', 'o'],
        PluralCategory::One => seq!['o', 'n', 'e'],
        PluralCategory::Two => seq!['t', 'w', 'o'],
        PluralCategory::Few => seq!['f', 'e', 'w'],
        PluralCategory::Many => seq!['m', 'a', 'n', 'y'],
        PluralCategory::Other => seq!['o', 't', 'h', 'e', 'r'],
    }
}

fn category_str(c: PluralCategory) -> (r: &'static str)
    ensures
        r@ == category_name(c),
{
    proof {
        reveal_strlit("zero");
        reveal_strlit("one");
        reveal_strlit("two");
        reveal_strlit("few");
        reveal_strlit("many");
        reveal_strlit("other");
    }
    let r = match c {
        PluralCategory::Zero => "zero",
        PluralCategory::One => "one",
        PluralCategory::Two => "two",
        PluralCategory::Few => "few",
        PluralCategory::Many => "many",
        PluralCategory::Other => "other",
    };
    proof {
        assert(r@ =~= category_name(c));
    }
    r
}

/// `key.sub`.
pub open spec fn sub_key(key: Seq<char>, sub: Seq<char>) -> Seq<char> {
    key + seq!['.'] + sub
}

fn sub_key_exec(key: &str, sub: &str) -> (r: String)
    ensures
        r@ == sub_key(key@, sub@),
{
    let mut out = key.to_owned();
    let dot = ".";
    proof {
        reveal_strlit(".");
    }
    out.append(dot);
    out.append(sub);
    out
}

/// The key a count selects (see the module documentation).
pub open spec fn plural_key(
    table: crate::parse::Tables,
    fallback: Seq<Seq<char>>,
    locale: Seq<char>,
    key: Seq<char>,
    digits: Seq<char>,
) -> Seq<char> {
    let exact = sub_key(key, digits);
    let found = |k: Seq<char>| translation(table, fallback, locale, k) is Some;
    if !digits.contains('.') && found(exact) {
        exact
    } else if cldr_category(locale, digits) is Some && found(
        sub_key(key, category_name(cldr_category(locale, digits)->0)),
    ) {
        sub_key(key, category_name(cldr_category(locale, digits)->0))
    } else if found(sub_key(key, category_name(PluralCategory::Other))) {
        sub_key(key, category_name(PluralCategory::Other))
    } else {
        key
    }
}

fn contains_dot(s: &str) -> (r: bool)
    ensures
        r == s@.contains('.'),
{
    let chars = crate::text::chars_of(s);
    let mut i: usize = 0;
    while i < chars.len()
        invariant
            chars@ == s@,
            0 <= i <= chars@.len(),
            forall|k: int| 0 <= k < i ==> chars@[k] != '.',
        decreases chars@.len() - i,
    {
        if chars[i] == '.' {
            return true;
        }
        i = i + 1;
    }
    false
}

/// Picks the translation key to use for `key` with the given `count`.
pub fn resolve_plural_key(i18n: &I18n, locale: &str, key: &str, count: &FixedDecimal) -> (r: String)
    ensures
        r@ == plural_key(i18n@.translations, i18n@.fallback, locale@, key@, count@),
{
    // 1. Exact integer sub-key (`cats.0` beats CLDR categories).
    let plain = count.digits();
    if !contains_dot(plain) {
        let candidate = sub_key_exec(key, plain);
        if i18n.translate(locale, candidate.as_str()).is_some() {
            return candidate;
        }
    }
    // 2. CLDR category for the locale (en: 1 -> one; pl: few/many; ar: six forms…).

    if let Some(category) = plural_category(locale, plain) {
        let candidate = sub_key_exec(key, category_str(category));
        if i18n.translate(locale, candidate.as_str()).is_some() {
            return candidate;
        }
    }
    // 3. `other` is the universal CLDR fallback category.

    let candidate = sub_key_exec(key, category_str(PluralCategory::Other));
    if i18n.translate(locale, candidate.as_str()).is_some() {
        return candidate;
    }
    // 4. Bare key: non-plural keys keep working with a count, and a full miss goes
    //    through the usual key-echo path.

    key.to_owned()
}

/// Distinct plural categories select distinct sub-keys.
pub proof fn law_category_sub_keys_are_distinct(c1: PluralCategory, c2: PluralCategory)
    requires
        c1 != c2,
    ensures
        category_name(c1) != category_name(c2),
{
    assert(category_name(c1).len() != category_name(c2).len() || category_name(c1)[0] != category_name(
        c2,
    )[0] || category_name(c1)[1] != category_name(c2)[1]);
}

/// A count whose key has no exact integer form in the table resolves, through its
/// CLDR category, to the sub-key spelled with that category's CLDR keyword
/// (`zero`, `one`, `two`, `few`, `many`, `other`) whenever the table holds it:
/// in Arabic, 2 (category `two`) selects `cats.two`.
pub proof fn law_category_selects_its_keyword(
    table: crate::parse::Tables,
    fallback: Seq<Seq<char>>,
    locale: Seq<char>,
    key: Seq<char>,
    digits: Seq<char>,
    c: PluralCategory,
)
    requires
        digits.contains('.') || translation(table, fallback, locale, key + seq!['.'] + digits) is None,
        cldr_category(locale, digits) == Some(c),
        translation(
            table,
            fallback,
            locale,
            key + seq!['.'] + match c {
                PluralCategory::Zero => seq!['z', 'e', 'r', 'o'],
                PluralCategory::One => seq!['o', 'n', 'e'],
                PluralCategory::Two => seq!['t', 'w', 'o'],
                PluralCategory::Few => seq!['f', 'e', 'w'],
                PluralCategory::Many => seq!['m', 'a', 'n', 'y'],
                PluralCategory::Other => seq!['o', 't', 'h', 'e', 'r'],
            },
        ) is Some,
    ensures
        plural_key(table, fallback, locale, key, digits) == key + seq!['.'] + match c {
            PluralCategory::Zero => seq!['z', 'e', 'r', 'o'],
            PluralCategory::One => seq!['o', 'n', 'e'],
            PluralCategory::Two => seq!['t', 'w', 'o'],
            PluralCategory::Few => seq!['f', 'e', 'w'],
            PluralCategory::Many => seq!['m', 'a', 'n', 'y'],
            PluralCategory::Other => seq!['o', 't', 'h', 'e', 'r'],
        },
{
    assert(sub_key(key, digits) == key + seq!['.'] + digits);
    assert(sub_key(key, category_name(c)) =~= key + seq!['.'] + match c {
        PluralCategory::Zero => seq!['z', 'e', 'r', 'o'],
        PluralCategory::One => seq!['o', 'n', 'e'],
        PluralCategory::Two => seq!['t', 'w', 'o'],
        PluralCategory::Few => seq!['f', 'e', 'w'],
        PluralCategory::Many => seq!['m', 'a', 'n', 'y'],
        PluralCategory::Other => seq!['o', 't', 'h', 'e', 'r'],
    });
}

} // verus!
