//! Decimal numbers and their locale-aware formatting (`fixed_decimal`, `icu_decimal`).
use vstd::prelude::*;

verus! {

/// The plain notation `fixed_decimal` gives the number written `text` (its
/// `Display` of the parsed `Decimal`), or `None` when it does not read `text` as a
/// decimal number.
pub uninterp spec fn decimal_plain(text: Seq<char>) -> Option<Seq<char>>;

/// The text `icu_decimal` formats the decimal written `digits` with for `locale`
/// (grouping and decimal separators of the locale), or `None` when `locale` is not
/// a locale identifier, `digits` not a decimal, or no formatter can be built.
pub uninterp spec fn localized_number(locale: Seq<char>, digits: Seq<char>) -> Option<Seq<char>>;

/// Calls `fixed_decimal::Decimal::try_from_str` and renders the number with its
/// `Display` impl: the result is [`decimal_plain`] of `text`.
#[verifier::external_body]
fn plain_decimal(text: &str) -> (r: Option<String>)
    ensures
        match r {
            Some(d) => decimal_plain(text@) == Some(d@),
            None => decimal_plain(text@) is None,
        },
{
    match fixed_decimal::Decimal::try_from_str(text) {
        Ok(d) => Some(d.to_string()),
        Err(_) => None,
    }
}

/// Builds an `icu_decimal::DecimalFormatter` for `locale` (parsed with
/// `icu_locale_core`) with default options and formats `digits` (parsed with
/// `fixed_decimal`) with `format_to_string`: the result is [`localized_number`].
#[verifier::external_body]
fn format_number(locale: &str, digits: &str) -> (r: Option<String>)
    ensures
        match r {
            Some(t) => localized_number(locale@, digits@) == Some(t@),
            None => localized_number(locale@, digits@) is None,
        },
{
    let locale = locale.parse::<icu_locale_core::Locale>().ok()?;
    let value = fixed_decimal::Decimal::try_from_str(digits).ok()?;
    let formatter = icu_decimal::DecimalFormatter::try_new((&locale).into(), Default::default()).ok()?;
    Some(formatter.format_to_string(&value))
}

/// A finite decimal number, held in the plain notation of `fixed_decimal`
/// (`2503.1`, `-0.5`, `3`).
#[derive(Clone, Debug)]
pub struct FixedDecimal {
    digits: String,
}

impl View for FixedDecimal {
    type V = Seq<char>;

    closed spec fn view(&self) -> Seq<char> {
        self.digits@
    }
}

impl FixedDecimal {
    /// The number written `text`, in plain notation; `None` when `text` is not a
    /// decimal number.
    pub fn parse(text: &str) -> (r: Option<FixedDecimal>)
        ensures
            match r {
                Some(d) => decimal_plain(text@) == Some(d@),
                None => decimal_plain(text@) is None,
            },
    {
        match plain_decimal(text) {
            Some(digits) => Some(FixedDecimal { digits }),
            None => None,
        }
    }

    /// The plain notation of the number.
    pub fn digits(&self) -> (r: &str)
        ensures
            r@ == self@,
    {
        self.digits.as_str()
    }

    /// A copy of the number.
    pub fn copy(&self) -> (r: FixedDecimal)
        ensures
            r@ == self@,
    {
        FixedDecimal { digits: self.digits.clone() }
    }
}

/// The number formatted for `locale`, or its plain notation when no formatter for
/// `locale` can be built.
pub open spec fn number_text(locale: Seq<char>, digits: Seq<char>) -> Seq<char> {
    match localized_number(locale, digits) {
        Some(t) => t,
        None => digits,
    }
}

/// `number` formatted for `locale`, falling back to its plain notation.
pub fn localize(locale: &str, number: &FixedDecimal) -> (r: String)
    ensures
        r@ == number_text(locale@, number@),
{
    match format_number(locale, number.digits()) {
        Some(t) => t,
        None => number.digits().to_owned(),
    }
}

} // verus!
