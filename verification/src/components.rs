//! The translatable text and number components and the rendering rules they share:
//! argument formatting, the key-echo on a complete miss, plural keys and
//! interpolation.
use vstd::prelude::*;

use crate::interpolate::{interpolate, interpolated};
use crate::locale::{hyphenate, hyphenated, is_valid_locale, is_valid_locale_tag};
use crate::number::{localize, number_text, FixedDecimal};
use crate::plural::{plural_key, resolve_plural_key};
use crate::resources::{translation, I18n, I18nView};
use crate::text::{str_eq, str_views, string_views};

verus! {

/// Implemented by every component whose text follows a translation key.
///
/// Both methods receive the [`I18n`] resource: all locale state lives there.
pub trait I18nComponent {
    /// This component's locale: its own override if one was set, otherwise the
    /// current locale of `i18n`.
    fn locale<'a>(&'a self, i18n: &'a I18n) -> &'a str;

    /// The translated / localized text for [`locale`](Self::locale).
    fn translate(&self, i18n: &I18n) -> String;
}

/// An interpolation argument value.
#[derive(Clone, Debug)]
pub enum InterpolationType {
    /// Inserted as it is.
    String(String),
    /// Formatted for the component's locale.
    Number(FixedDecimal),
}

/// The abstract value of an argument.
pub enum ArgValue {
    Text(Seq<char>),
    Number(Seq<char>),
}

pub open spec fn arg_view(a: InterpolationType) -> ArgValue {
    match a {
        InterpolationType::String(s) => ArgValue::Text(s@),
        InterpolationType::Number(n) => ArgValue::Number(n@),
    }
}

pub open spec fn args_view(args: Seq<(String, InterpolationType)>) -> Seq<(Seq<char>, ArgValue)> {
    args.map_values(|a: (String, InterpolationType)| (a.0@, arg_view(a.1)))
}

/// The text an argument contributes in `locale`.
pub open spec fn arg_text(locale: Seq<char>, a: ArgValue) -> Seq<char> {
    match a {
        ArgValue::Text(t) => t,
        ArgValue::Number(d) => number_text(locale, d),
    }
}

/// The interpolation pattern names of `args`.
pub open spec fn arg_names(args: Seq<(Seq<char>, ArgValue)>) -> Seq<Seq<char>> {
    args.map_values(|a: (Seq<char>, ArgValue)| a.0)
}

/// The interpolation values of `args` in `locale`.
pub open spec fn arg_texts(locale: Seq<char>, args: Seq<(Seq<char>, ArgValue)>) -> Seq<Seq<char>> {
    args.map_values(|a: (Seq<char>, ArgValue)| arg_text(locale, a.1))
}

/// `key` translated in `locale` — or `key` itself on a complete miss — with the
/// arguments interpolated.
pub open spec fn rendered(
    state: I18nView,
    locale: Seq<char>,
    key: Seq<char>,
    patterns: Seq<Seq<char>>,
    values: Seq<Seq<char>>,
) -> Seq<char> {
    let text = match translation(state.translations, state.fallback, locale, key) {
        Some(t) => t,
        None => key,
    };
    interpolated(text, patterns, values)
}

/// `"count"`.
pub open spec fn count_name() -> Seq<char> {
    seq!['c', 'o', 'u', 'n', 't']
}

/// The text of a key with arguments and, optionally, a plural count: with a count
/// the key resolves to its plural form and `%{count}` (formatted for the locale)
/// follows the user's own arguments, which win on a shared name.
pub open spec fn keyed_text(
    state: I18nView,
    locale: Seq<char>,
    key: Seq<char>,
    args: Seq<(Seq<char>, ArgValue)>,
    count: Option<Seq<char>>,
) -> Seq<char> {
    match count {
        Some(c) => rendered(
            state,
            locale,
            plural_key(state.translations, state.fallback, locale, key, c),
            arg_names(args).push(count_name()),
            arg_texts(locale, args).push(number_text(locale, c)),
        ),
        None => rendered(state, locale, key, arg_names(args), arg_texts(locale, args)),
    }
}

/// The pattern names and the formatted values of `args` in `locale`.
fn build_args<'a>(locale: &str, args: &'a Vec<(String, InterpolationType)>) -> (r: (
    Vec<&'a str>,
    Vec<String>,
))
    ensures
        str_views(r.0@) == arg_names(args_view(args@)),
        string_views(r.1@) == arg_texts(locale@, args_view(args@)),
{
    let ghost av = args_view(args@);
    let mut patterns: Vec<&str> = Vec::new();
    let mut values: Vec<String> = Vec::new();
    let mut i: usize = 0;
    while i < args.len()
        invariant
            av == args_view(args@),
            0 <= i <= args@.len(),
            str_views(patterns@) == arg_names(av).take(i as int),
            string_views(values@) == arg_texts(locale@, av).take(i as int),
        decreases args@.len() - i,
    {
        let ghost e = args@[i as int];
        let ghost old_p = patterns@;
        let ghost old_v = values@;
        let value = match &args[i].1 {
            InterpolationType::String(v) => v.clone(),
            InterpolationType::Number(v) => localize(locale, v),
        };
        proof {
            assert(av[i as int] == (e.0@, arg_view(e.1)));
            assert(value@ == arg_text(locale@, arg_view(e.1)));
        }
        patterns.push(args[i].0.as_str());
        values.push(value);
        proof {
            assert(arg_names(av).take(i + 1) =~= arg_names(av).take(i as int).push(e.0@));
            assert(arg_texts(locale@, av).take(i + 1) =~= arg_texts(locale@, av).take(i as int).push(value@));
            assert(str_views(patterns@) =~= str_views(old_p).push(e.0@));
            assert(string_views(values@) =~= string_views(old_v).push(value@));
            assert(str_views(patterns@) =~= arg_names(av).take(i + 1));
            assert(string_views(values@) =~= arg_texts(locale@, av).take(i + 1));
        }
        i = i + 1;
    }
    proof {
        assert(arg_names(av).take(args@.len() as int) =~= arg_names(av));
        assert(arg_texts(locale@, av).take(args@.len() as int) =~= arg_texts(locale@, av));
    }
    (patterns, values)
}

/// `key` translated in `locale` (the key itself on a complete miss), with the
/// arguments interpolated.
fn translate_resolved(i18n: &I18n, locale: &str, key: &str, patterns: Vec<&str>, values: Vec<String>) -> (r:
    String)
    ensures
        r@ == rendered(i18n@, locale@, key@, str_views(patterns@), string_views(values@)),
{
    let translated = match i18n.translate(locale, key) {
        Some(text) => text,
        None => key,
    };
    interpolate(translated, patterns.as_slice(), values.as_slice())
}

/// `key` translated in `locale` with `args` interpolated.
pub fn translate_by_key(i18n: &I18n, locale: &str, key: &str, args: &Vec<(String, InterpolationType)>) -> (r:
    String)
    ensures
        r@ == keyed_text(i18n@, locale@, key@, args_view(args@), None),
{
    let (patterns, values) = build_args(locale, args);
    translate_resolved(i18n, locale, key, patterns, values)
}

/// Like [`translate_by_key`], but `key` first resolves to its plural form for
/// `count`, and `%{count}` (formatted for `locale`) follows the user's arguments —
/// interpolation is first-match-wins, so a user-supplied `count` wins.
pub fn translate_plural(
    i18n: &I18n,
    locale: &str,
    key: &str,
    args: &Vec<(String, InterpolationType)>,
    count: &FixedDecimal,
) -> (r: String)
    ensures
        r@ == keyed_text(i18n@, locale@, key@, args_view(args@), Some(count@)),
{
    let resolved = resolve_plural_key(i18n, locale, key, count);
    let (mut patterns, mut values) = build_args(locale, args);
    let name = "count";
    proof {
        reveal_strlit("count");
        assert(name@ =~= count_name());
    }
    patterns.push(name);
    values.push(localize(locale, count));
    proof {
        assert(str_views(patterns@) =~= arg_names(args_view(args@)).push(count_name()));
        assert(string_views(values@) =~= arg_texts(locale@, args_view(args@)).push(
            number_text(locale@, count@),
        ));
    }
    translate_resolved(i18n, locale, resolved.as_str(), patterns, values)
}

/// `raw` with `_` turned into `-`, when that is a locale identifier.
pub open spec fn accepted_locale(raw: Seq<char>) -> Option<Seq<char>> {
    if is_valid_locale(hyphenated(raw)) {
        Some(hyphenated(raw))
    } else {
        None
    }
}

fn normalize_locale(raw: &str) -> (r: Option<String>)
    ensures
        match r {
            Some(l) => accepted_locale(raw@) == Some(l@),
            None => accepted_locale(raw@) is None,
        },
{
    let normalized = hyphenate(raw);
    if is_valid_locale_tag(normalized.as_str()) {
        Some(normalized)
    } else {
        None
    }
}

/// The abstract state of an [`I18nText`].
pub struct I18nTextView {
    pub key: Seq<char>,
    pub args: Seq<(Seq<char>, ArgValue)>,
    pub locale: Option<Seq<char>>,
    pub count: Option<Seq<char>>,
}

/// `args` with the value of the first argument named `name` replaced, or with
/// `(name, value)` appended when there is none.
pub open spec fn upsert(args: Seq<(Seq<char>, ArgValue)>, name: Seq<char>, value: ArgValue) -> Seq<
    (Seq<char>, ArgValue),
> {
    match crate::interpolate::find_name(arg_names(args), name, 0) {
        Some(i) => args.update(i, (name, value)),
        None => args.push((name, value)),
    }
}

/// A translatable text: a translation key, interpolation arguments, an optional
/// locale override and an optional plural count.
///
/// # Example
///
/// ```json
/// // en.json
/// {
///     "hello": "Hello, World!",
///     "greet": "Hello, %{name}!"
/// }
/// ```
///
/// `I18nText::new("greet").with_arg("name", "Bevy User")` renders `Hello, Bevy User!`.
#[derive(Clone, Debug)]
pub struct I18nText {
    /// Translation key.
    key: String,
    /// Interpolation arguments for the translation key.
    args: Vec<(String, InterpolationType)>,
    /// Locale for this specific translation, `None` to use the global locale.
    locale: Option<String>,
    /// Plural count: resolves the key to its plural form and provides `%{count}`.
    count: Option<FixedDecimal>,
}

impl View for I18nText {
    type V = I18nTextView;

    closed spec fn view(&self) -> I18nTextView {
        I18nTextView {
            key: self.key@,
            args: args_view(self.args@),
            locale: match self.locale {
                Some(l) => Some(l@),
                None => None,
            },
            count: match self.count {
                Some(c) => Some(c@),
                None => None,
            },
        }
    }
}

/// The locale a component with override `own` uses under `state`.
pub open spec fn effective_locale(own: Option<Seq<char>>, state: I18nView) -> Seq<char> {
    match own {
        Some(l) => l,
        None => state.current,
    }
}

/// What an [`I18nText`] renders under `state`.
pub open spec fn text_rendering(text: I18nTextView, state: I18nView) -> Seq<char> {
    keyed_text(state, effective_locale(text.locale, state), text.key, text.args, text.count)
}

impl I18nText {
    /// A component for the translation key `key`, without arguments, locale
    /// override or count.
    pub fn new(key: &str) -> (r: I18nText)
        ensures
            r@ == (I18nTextView { key: key@, args: Seq::empty(), locale: None, count: None }),
    {
        let r = I18nText { key: key.to_owned(), args: Vec::new(), locale: None, count: None };
        proof {
            assert(args_view(r.args@) =~= Seq::empty());
        }
        r
    }

    /// Sets the plural count: the key resolves to its plural sub-key (exact integer
    /// `key.0`, CLDR category `key.one`/`key.few`/…, then `key.other`, then the bare
    /// key), and `%{count}` becomes available as a localized argument. `None` (a
    /// non-finite number) clears the count.
    pub fn with_count(self, count: Option<FixedDecimal>) -> (r: I18nText)
        ensures
            r@ == (I18nTextView {
                count: match count {
                    Some(c) => Some(c@),
                    None => None,
                },
                ..self@
            }),
    {
        let mut s = self;
        s.count = count;
        s
    }

    /// Sets the locale for this specific translation. Underscore-separated tags
    /// (`en_US`) are normalized to hyphens first; an invalid locale is ignored and
    /// the global locale keeps being used.
    pub fn with_locale(self, locale: &str) -> (r: I18nText)
        ensures
            r@ == (I18nTextView {
                locale: match accepted_locale(locale@) {
                    Some(l) => Some(l),
                    None => self@.locale,
                },
                ..self@
            }),
    {
        let mut s = self;
        s.set_locale(locale);
        s
    }

    /// Adds a string interpolation argument; may be called any number of times
    /// (the first argument of a name wins).
    pub fn with_arg(self, key: &str, value: &str) -> (r: I18nText)
        ensures
            r@ == (I18nTextView {
                args: self@.args.push((key@, ArgValue::Text(value@))),
                ..self@
            }),
    {
        let mut s = self;
        s.args.push((key.to_owned(), InterpolationType::String(value.to_owned())));
        proof {
            assert(args_view(s.args@) =~= self@.args.push((key@, ArgValue::Text(value@))));
        }
        s
    }

    /// Adds a number interpolation argument, formatted for the locale; `None` (a
    /// non-finite number) is skipped, so the `%{name}` pattern stays verbatim.
    pub fn with_num_arg(self, key: &str, value: Option<FixedDecimal>) -> (r: I18nText)
        ensures
            r@ == (I18nTextView {
                args: match value {
                    Some(v) => self@.args.push((key@, ArgValue::Number(v@))),
                    None => self@.args,
                },
                ..self@
            }),
    {
        let mut s = self;
        if let Some(v) = value {
            s.args.push((key.to_owned(), InterpolationType::Number(v)));
            proof {
                assert(args_view(s.args@) =~= self@.args.push((key@, ArgValue::Number(v@))));
            }
        }
        s
    }

    /// Replaces the translation key.
    pub fn set_key(&mut self, key: &str)
        ensures
            final(self)@ == (I18nTextView { key: key@, ..old(self)@ }),
    {
        self.key = key.to_owned();
    }

    /// Sets the locale in place, with the validation of
    /// [`with_locale`](Self::with_locale); an invalid locale leaves the previous one.
    pub fn set_locale(&mut self, locale: &str)
        ensures
            final(self)@ == (I18nTextView {
                locale: match accepted_locale(locale@) {
                    Some(l) => Some(l),
                    None => old(self)@.locale,
                },
                ..old(self)@
            }),
    {
        if let Some(l) = normalize_locale(locale) {
            self.locale = Some(l);
        }
    }

    fn upsert_arg(&mut self, key: &str, value: InterpolationType)
        ensures
            final(self)@ == (I18nTextView {
                args: upsert(old(self)@.args, key@, arg_view(value)),
                ..old(self)@
            }),
    {
        let ghost names = arg_names(old(self)@.args);
        let mut i: usize = 0;
        while i < self.args.len()
            invariant
                self@ == old(self)@,
                names == arg_names(self@.args),
                names.len() == self.args@.len(),
                0 <= i <= self.args@.len(),
                crate::interpolate::find_name(names, key@, 0) == crate::interpolate::find_name(
                    names,
                    key@,
                    i as int,
                ),
            decreases self.args@.len() - i,
        {
            proof {
                assert(names[i as int] == self.args@[i as int].0@);
            }
            if str_eq(self.args[i].0.as_str(), key) {
                let (k, _old) = self.args.remove(i);
                self.args.insert(i, (k, value));
                proof {
                    assert(args_view(self.args@) =~= args_view(old(self).args@).update(
                        i as int,
                        (key@, arg_view(value)),
                    ));
                }
                return;
            }
            i = i + 1;
        }
        self.args.push((key.to_owned(), value));
        proof {
            assert(args_view(self.args@) =~= args_view(old(self).args@).push((key@, arg_view(value))));
        }
    }

    /// Sets a string argument: replaces the value of the first argument named
    /// `key` in place (its position is kept), or appends the argument.
    pub fn set_arg(&mut self, key: &str, value: &str)
        ensures
            final(self)@ == (I18nTextView {
                args: upsert(old(self)@.args, key@, ArgValue::Text(value@)),
                ..old(self)@
            }),
    {
        self.upsert_arg(key, InterpolationType::String(value.to_owned()));
    }

    /// Sets a number argument like [`set_arg`](Self::set_arg); `None` (a non-finite
    /// number) leaves the arguments unchanged.
    pub fn set_num_arg(&mut self, key: &str, value: Option<FixedDecimal>)
        ensures
            final(self)@ == (I18nTextView {
                args: match value {
                    Some(v) => upsert(old(self)@.args, key@, ArgValue::Number(v@)),
                    None => old(self)@.args,
                },
                ..old(self)@
            }),
    {
        if let Some(v) = value {
            self.upsert_arg(key, InterpolationType::Number(v));
        }
    }

    /// Removes every interpolation argument.
    pub fn clear_args(&mut self)
        ensures
            final(self)@ == (I18nTextView { args: Seq::empty(), ..old(self)@ }),
    {
        self.args = Vec::new();
        proof {
            assert(args_view(self.args@) =~= Seq::empty());
        }
    }

    /// Sets the plural count in place; `None` (a non-finite number) leaves the
    /// previous count.
    pub fn set_count(&mut self, count: Option<FixedDecimal>)
        ensures
            final(self)@ == (I18nTextView {
                count: match count {
                    Some(c) => Some(c@),
                    None => old(self)@.count,
                },
                ..old(self)@
            }),
    {
        if let Some(c) = count {
            self.count = Some(c);
        }
    }
}

impl I18nComponent for I18nText {
    fn locale<'a>(&'a self, i18n: &'a I18n) -> (r: &'a str)
        ensures
            r@ == effective_locale(self@.locale, i18n@),
    {
        match &self.locale {
            Some(l) => l.as_str(),
            None => i18n.current(),
        }
    }

    fn translate(&self, i18n: &I18n) -> (r: String)
        ensures
            r@ == text_rendering(self@, i18n@),
    {
        let locale = self.locale(i18n);
        match &self.count {
            Some(count) => translate_plural(i18n, locale, self.key.as_str(), &self.args, count),
            None => translate_by_key(i18n, locale, self.key.as_str(), &self.args),
        }
    }
}

/// The abstract state of an [`I18nNumber`].
pub struct I18nNumberView {
    pub number: Option<Seq<char>>,
    pub locale: Option<Seq<char>>,
}

/// What an [`I18nNumber`] renders under `state`: the number formatted for its
/// locale, or the empty text when it holds no number.
pub open spec fn number_rendering(n: I18nNumberView, state: I18nView) -> Seq<char> {
    match n.number {
        Some(d) => number_text(effective_locale(n.locale, state), d),
        None => Seq::empty(),
    }
}

/// A number rendered with the grouping and decimal separators of its locale.
///
/// It holds no number when it was made from a NaN or infinite value; it then
/// renders as the empty text.
#[derive(Clone, Debug)]
pub struct I18nNumber {
    fixed_decimal: Option<FixedDecimal>,
    /// Locale for this specific number, `None` to use the global locale.
    locale: Option<String>,
}

impl View for I18nNumber {
    type V = I18nNumberView;

    closed spec fn view(&self) -> I18nNumberView {
        I18nNumberView {
            number: match self.fixed_decimal {
                Some(d) => Some(d@),
                None => None,
            },
            locale: match self.locale {
                Some(l) => Some(l@),
                None => None,
            },
        }
    }
}

impl I18nNumber {
    /// A component showing `number` (`None` for a non-finite value).
    pub fn new(number: Option<FixedDecimal>) -> (r: I18nNumber)
        ensures
            r@ == (I18nNumberView {
                number: match number {
                    Some(d) => Some(d@),
                    None => None,
                },
                locale: None,
            }),
    {
        I18nNumber { fixed_decimal: number, locale: None }
    }

    /// Sets the locale, with the validation of [`set_locale`](Self::set_locale).
    pub fn with_locale(self, locale: &str) -> (r: I18nNumber)
        ensures
            r@ == (I18nNumberView {
                locale: match accepted_locale(locale@) {
                    Some(l) => Some(l),
                    None => self@.locale,
                },
                ..self@
            }),
    {
        let mut s = self;
        s.set_locale(locale);
        s
    }

    /// Replaces the number in place; `None` (a non-finite value) leaves the
    /// previous number.
    pub fn set_number(&mut self, number: Option<FixedDecimal>)
        ensures
            final(self)@ == (I18nNumberView {
                number: match number {
                    Some(d) => Some(d@),
                    None => old(self)@.number,
                },
                ..old(self)@
            }),
    {
        if let Some(d) = number {
            self.fixed_decimal = Some(d);
        }
    }

    /// Sets the locale in place. Underscore-separated tags (`en_US`) are
    /// normalized to hyphens first; an invalid locale leaves the previous one.
    pub fn set_locale(&mut self, locale: &str)
        ensures
            final(self)@ == (I18nNumberView {
                locale: match accepted_locale(locale@) {
                    Some(l) => Some(l),
                    None => old(self)@.locale,
                },
                ..old(self)@
            }),
    {
        if let Some(l) = normalize_locale(locale) {
            self.locale = Some(l);
        }
    }
}

impl I18nComponent for I18nNumber {
    fn locale<'a>(&'a self, i18n: &'a I18n) -> (r: &'a str)
        ensures
            r@ == effective_locale(self@.locale, i18n@),
    {
        match &self.locale {
            Some(l) => l.as_str(),
            None => i18n.current(),
        }
    }

    fn translate(&self, i18n: &I18n) -> (r: String)
        ensures
            r@ == number_rendering(self@, i18n@),
    {
        match &self.fixed_decimal {
            Some(d) => localize(self.locale(i18n), d),
            None => String::new(),
        }
    }
}

/// Selects a font family for the text on the same entity; the font follows that
/// text's locale.
#[derive(Clone, Debug)]
pub struct I18nFont(pub String);

impl I18nFont {
    /// The font family `family`.
    pub fn new(family: &str) -> (r: I18nFont)
        ensures
            r.0@ == family@,
    {
        I18nFont(family.to_owned())
    }
}

/// A complete miss renders the key itself: without arguments the key comes back
/// verbatim, whatever patterns are asked for.
pub proof fn law_missing_key_echoes_key(
    state: I18nView,
    locale: Seq<char>,
    key: Seq<char>,
    patterns: Seq<Seq<char>>,
)
    requires
        translation(state.translations, state.fallback, locale, key) is None,
    ensures
        rendered(state, locale, key, patterns, Seq::empty()) == key,
{
    crate::interpolate::law_no_values_is_identity(key, patterns);
}

/// A plural count is one more number argument: the text with count `c` is the
/// text of the key `c` selects, with the user's arguments followed by a number
/// argument `count` of value `c`, so `%{count}` shows `c` formatted for the
/// locale exactly as a number argument would.
pub proof fn law_count_is_a_localized_number_argument(
    state: I18nView,
    locale: Seq<char>,
    key: Seq<char>,
    args: Seq<(Seq<char>, ArgValue)>,
    c: Seq<char>,
)
    ensures
        keyed_text(state, locale, key, args, Some(c)) == keyed_text(
            state,
            locale,
            plural_key(state.translations, state.fallback, locale, key, c),
            args.push((seq!['c', 'o', 'u', 'n', 't'], ArgValue::Number(c))),
            None,
        ),
{
    let more = args.push((seq!['c', 'o', 'u', 'n', 't'], ArgValue::Number(c)));
    assert(arg_names(more) =~= arg_names(args).push(count_name()));
    assert(arg_texts(locale, more) =~= arg_texts(locale, args).push(number_text(locale, c)));
}

} // verus!
