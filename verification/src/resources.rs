//! The locale state: the current locale, the merged translation table and the
//! lookup rules, plus the registry of dynamic font families.
use vstd::prelude::*;

use crate::locale::{
    is_valid_locale, is_valid_locale_tag, lemma_last_index_bounds, lemma_parent_shorter,
    lemma_trim_is_prefix, locale_chain, parent_locale, sort_locales, sorted_strictly,
    trim_private_tail, truncation_chain,
};
use crate::parse::{last_index_of, Tables};
use crate::table::{Table, TextMap};
use crate::text::{chars_of, string_views};

verus! {

/// `table` holds a text for `key` in `locale`.
pub open spec fn has_text(table: Tables, locale: Seq<char>, key: Seq<char>) -> bool {
    table.contains_key(locale) && table[locale].contains_key(key)
}

/// The text of `key` in the first of `candidates` that has one.
pub open spec fn first_hit(table: Tables, candidates: Seq<Seq<char>>, key: Seq<char>) -> Option<
    Seq<char>,
>
    decreases candidates.len(),
{
    if candidates.len() == 0 {
        None
    } else if has_text(table, candidates[0], key) {
        Some(table[candidates[0]][key])
    } else {
        first_hit(table, candidates.drop_first(), key)
    }
}

/// The locales tried for a lookup in `locale`: the locale, its truncation chain,
/// then the explicit fallback locales in order.
pub open spec fn lookup_candidates(locale: Seq<char>, fallback: Seq<Seq<char>>) -> Seq<Seq<char>> {
    locale_chain(locale) + fallback
}

/// The translation of `key` in `locale` (see [`lookup_candidates`]), `None` on a
/// complete miss.
pub open spec fn translation(
    table: Tables,
    fallback: Seq<Seq<char>>,
    locale: Seq<char>,
    key: Seq<char>,
) -> Option<Seq<char>> {
    first_hit(table, lookup_candidates(locale, fallback), key)
}

/// `table` ships `locale` or one of its parents.
pub open spec fn ships(table: Tables, locale: Seq<char>) -> bool {
    exists|i: int| 0 <= i < locale_chain(locale).len() && table.contains_key(#[trigger] locale_chain(locale)[i])
}

/// The abstract state of an [`I18n`].
pub struct I18nView {
    pub current: Seq<char>,
    pub locales: Seq<Seq<char>>,
    pub translations: Tables,
    pub fallback: Seq<Seq<char>>,
    pub ready: bool,
    pub explicit: bool,
    pub detected: Option<Seq<char>>,
}

/// The current locale after a table arrives: an explicit choice stays; otherwise a
/// detected system locale that the table ships (itself or a parent) wins, then a
/// valid, non-empty `default_locale`; otherwise the locale stays.
pub open spec fn starting_locale(state: I18nView, table: Tables, default_locale: Seq<char>) -> Seq<
    char,
> {
    if state.explicit {
        state.current
    } else if state.detected is Some && ships(table, state.detected->0) {
        state.detected->0
    } else if default_locale.len() > 0 && state.current != default_locale && is_valid_locale(
        default_locale,
    ) {
        default_locale
    } else {
        state.current
    }
}

/// Resource for managing the current locale and looking up translations.
///
/// It holds the current locale, the merged translation table, the available
/// locales (sorted) and the explicit fallback chain.
#[derive(Debug)]
pub struct I18n {
    /// Currently active locale.
    current: String,
    /// Locales present in the merged table, sorted ascending (byte-lexicographic).
    locales: Vec<String>,
    /// `locale -> (flat key -> text)`, merged in manifest order (later files win).
    translations: Table,
    /// Explicit fallback locales, tried in order after the requested locale's
    /// truncation chain. Empty by default: a miss does not fall back silently.
    fallback: Vec<String>,
    /// True once the manifest and all its translation files finished loading.
    ready: bool,
    /// Set by [`set_locale`](Self::set_locale); keeps the manifest's default
    /// locale and a detected system locale from overriding an explicit choice.
    explicit: bool,
    /// The system locale detected at startup, if any.
    detected: Option<String>,
}

impl View for I18n {
    type V = I18nView;

    closed spec fn view(&self) -> I18nView {
        I18nView {
            current: self.current@,
            locales: string_views(self.locales@),
            translations: self.translations@,
            fallback: string_views(self.fallback@),
            ready: self.ready,
            explicit: self.explicit,
            detected: match self.detected {
                Some(d) => Some(d@),
                None => None,
            },
        }
    }
}

/// The locale list of a state is the table's locales, sorted, each once.
pub open spec fn locales_listed(state: I18nView) -> bool {
    &&& sorted_strictly(state.locales)
    &&& state.locales.to_set() == state.translations.dom()
}

impl I18n {
    #[verifier::type_invariant]
    spec fn wf(self) -> bool {
        locales_listed(self@)
    }

    /// Sets the active locale. An identifier that `icu_locale_core` does not accept
    /// is rejected and leaves the state unchanged.
    pub fn set_locale(&mut self, locale: &str)
        ensures
            is_valid_locale(locale@) ==> final(self)@ == (I18nView {
                current: locale@,
                explicit: true,
                ..old(self)@
            }),
            !is_valid_locale(locale@) ==> final(self)@ == old(self)@,
    {
        proof {
            use_type_invariant(&*self);
        }
        if is_valid_locale_tag(locale) {
            self.current = locale.to_owned();
            self.explicit = true;
        }
    }

    /// The currently active locale.
    pub fn current(&self) -> (r: &str)
        ensures
            r@ == self@.current,
    {
        self.current.as_str()
    }

    /// All locales present in the loaded translation files, sorted ascending.
    pub fn locales(&self) -> (r: &[String])
        ensures
            string_views(r@) == self@.locales,
            sorted_strictly(self@.locales),
            self@.locales.to_set() == self@.translations.dom(),
    {
        proof {
            use_type_invariant(self);
        }
        self.locales.as_slice()
    }

    /// True once the manifest and all of its translation files have loaded.
    pub fn ready(&self) -> (r: bool)
        ensures
            r == self@.ready,
    {
        self.ready
    }

    /// The system locale staged at startup, if one was detected.
    pub fn detected(&self) -> (r: Option<&str>)
        ensures
            match r {
                Some(d) => self@.detected == Some(d@),
                None => self@.detected is None,
            },
    {
        match &self.detected {
            Some(d) => Some(d.as_str()),
            None => None,
        }
    }

    /// Stages a detected system locale; it becomes the current locale when a
    /// table that ships it (or a parent of it) arrives, unless a locale was set
    /// explicitly.
    pub fn set_detected(&mut self, locale: String)
        ensures
            final(self)@ == (I18nView { detected: Some(locale@), ..old(self)@ }),
    {
        proof {
            use_type_invariant(&*self);
        }
        self.detected = Some(locale);
    }

    fn lookup(&self, locale: &str, key: &str) -> (r: Option<&str>)
        ensures
            match r {
                Some(t) => has_text(self@.translations, locale@, key@) && self@.translations[locale@][key@] == t@,
                None => !has_text(self@.translations, locale@, key@),
            },
    {
        match self.translations.lookup(locale, key) {
            Some(t) => Some(t.as_str()),
            None => None,
        }
    }

    /// Looks up `key` for `locale`: the exact locale, then its BCP-47 truncation
    /// chain (`zh-Hant-CN` -> `zh-Hant` -> `zh`, trimming `-x` private-use tails),
    /// then the explicit fallback locales. `None` on a complete miss.
    pub fn translate(&self, locale: &str, key: &str) -> (r: Option<&str>)
        ensures
            match r {
                Some(t) => translation(self@.translations, self@.fallback, locale@, key@) == Some(t@),
                None => translation(self@.translations, self@.fallback, locale@, key@) is None,
            },
    {
        let ghost table = self@.translations;
        let ghost fb = self@.fallback;
        let chars = chars_of(locale);
        let mut end = chars.len();
        proof {
            assert(locale@.take(end as int) =~= locale@);
        }
        // Walk the truncation chain; every candidate is a prefix of `locale`.
        loop
            invariant
                chars@ == locale@,
                end <= locale@.len(),
                table == self@.translations,
                fb == self@.fallback,
                translation(table, fb, locale@, key@) == first_hit(
                    table,
                    lookup_candidates(locale@.take(end as int), fb),
                    key@,
                ),
            decreases end,
        {
            let candidate = locale.substring_char(0, end);
            let ghost c = locale@.take(end as int);
            proof {
                assert(candidate@ =~= c);
                assert(lookup_candidates(c, fb)[0] == c);
                assert(lookup_candidates(c, fb).drop_first() =~= truncation_chain(c) + fb);
            }
            if let Some(text) = self.lookup(candidate, key) {
                return Some(text);
            }
            // The last `-` of the candidate.
            let mut dash = end;
            while dash > 0 && chars[dash - 1] != '-'
                invariant
                    chars@ == locale@,
                    dash <= end <= locale@.len(),
                    last_index_of(locale@.take(end as int), '-') == last_index_of(
                        locale@.take(dash as int),
                        '-',
                    ),
                decreases dash,
            {
                proof {
                    assert(locale@.take(dash as int).drop_last() =~= locale@.take(dash - 1));
                }
                dash = dash - 1;
            }
            if dash == 0 {
                proof {
                    assert(parent_locale(c) is None);
                    assert(lookup_candidates(c, fb).drop_first() =~= fb);
                }
                return self.lookup_fallback(key);
            }
            proof {
                assert(locale@.take(dash as int).last() == '-');
                assert(last_index_of(c, '-') == Some(dash - 1));
                assert(locale@.take(dash as int).drop_last() =~= locale@.take(dash - 1));
            }
            // Cut at the dash, then trim trailing `-x` markers.
            let mut cut = dash - 1;
            while cut >= 2 && chars[cut - 2] == '-' && chars[cut - 1] == 'x'
                invariant
                    chars@ == locale@,
                    cut < dash <= end <= locale@.len(),
                    trim_private_tail(locale@.take(dash - 1)) == trim_private_tail(
                        locale@.take(cut as int),
                    ),
                decreases cut,
            {
                proof {
                    assert(locale@.take(cut as int).take(cut - 2) =~= locale@.take(cut - 2));
                }
                cut = cut - 2;
            }
            proof {
                assert(c.take(dash - 1) =~= locale@.take(dash - 1));
                assert(trim_private_tail(locale@.take(cut as int)) == locale@.take(cut as int));
                assert(parent_locale(c) == Some(locale@.take(cut as int)));
                lemma_parent_shorter(c);
                assert(truncation_chain(c) == seq![locale@.take(cut as int)] + truncation_chain(
                    locale@.take(cut as int),
                ));
                assert(truncation_chain(c) + fb =~= lookup_candidates(locale@.take(cut as int), fb));
            }
            end = cut;
        }
    }

    fn lookup_fallback(&self, key: &str) -> (r: Option<&str>)
        ensures
            match r {
                Some(t) => first_hit(self@.translations, self@.fallback, key@) == Some(t@),
                None => first_hit(self@.translations, self@.fallback, key@) is None,
            },
    {
        let ghost table = self@.translations;
        let ghost fb = self@.fallback;
        let mut i: usize = 0;
        proof {
            assert(fb.skip(0) =~= fb);
        }
        while i < self.fallback.len()
            invariant
                table == self@.translations,
                fb == self@.fallback,
                fb.len() == self.fallback@.len(),
                0 <= i <= fb.len(),
                first_hit(table, fb, key@) == first_hit(table, fb.skip(i as int), key@),
            decreases fb.len() - i,
        {
            proof {
                assert(fb.skip(i as int)[0] == fb[i as int]);
                assert(fb[i as int] == self.fallback@[i as int]@);
                assert(fb.skip(i as int).drop_first() =~= fb.skip(i + 1));
            }
            if let Some(text) = self.lookup(self.fallback[i].as_str(), key) {
                return Some(text);
            }
            i = i + 1;
        }
        None
    }

    /// Replaces the translation table, the fallback locales and the readiness,
    /// and picks the starting locale (see [`starting_locale`]).
    pub fn apply_table(&mut self, table: Table, default_locale: &str, fallback: Vec<String>, ready: bool)
        ensures
            final(self)@ == (I18nView {
                current: starting_locale(old(self)@, table@, default_locale@),
                locales: final(self)@.locales,
                translations: table@,
                fallback: string_views(fallback@),
                ready: ready,
                ..old(self)@
            }),
            locales_listed(final(self)@),
    {
        let ghost t = table@;
        let names = table.locale_names();
        let locales = sort_locales(names);
        let current = self.next_locale(&table, default_locale);
        proof {
            assert(string_views(locales@).to_set() == t.dom());
        }
        let detected = match &self.detected {
            Some(d) => Some(d.clone()),
            None => None,
        };
        *self = I18n {
            current,
            locales,
            translations: table,
            fallback,
            ready,
            explicit: self.explicit,
            detected,
        };
    }

    fn next_locale(&self, table: &Table, default_locale: &str) -> (r: String)
        ensures
            r@ == starting_locale(self@, table@, default_locale@),
    {
        if self.explicit {
            return self.current.clone();
        }
        if let Some(d) = &self.detected {
            if ships_locale(table, d.as_str()) {
                return d.clone();
            }
        }
        if !default_locale.is_empty() && !crate::text::str_eq(self.current.as_str(), default_locale)
            && is_valid_locale_tag(default_locale) {
            return default_locale.to_owned();
        }
        self.current.clone()
    }

    /// Latches readiness even when loading failed terminally (missing manifest),
    /// so readiness-gated loading screens do not wait forever.
    pub fn mark_ready(&mut self)
        ensures
            final(self)@ == (I18nView { ready: true, ..old(self)@ }),
    {
        proof {
            use_type_invariant(&*self);
        }
        self.ready = true;
    }
}

/// Whether `table` ships `locale` or one of its parents.
fn ships_locale(table: &Table, locale: &str) -> (r: bool)
    ensures
        r == ships(table@, locale@),
{
    let chars = chars_of(locale);
    let mut end = chars.len();
    let ghost chain = locale_chain(locale@);
    proof {
        assert(locale@.take(end as int) =~= locale@);
    }
    let ghost mut seen: int = 0;
    loop
        invariant
            chars@ == locale@,
            end <= locale@.len(),
            chain == locale_chain(locale@),
            0 <= seen < chain.len(),
            chain[seen] == locale@.take(end as int),
            chain.subrange(seen, chain.len() as int) == locale_chain(locale@.take(end as int)),
            forall|k: int| 0 <= k < seen ==> !table@.contains_key(#[trigger] chain[k]),
        decreases end,
    {
        let candidate = locale.substring_char(0, end);
        let ghost c = locale@.take(end as int);
        if table.get(candidate).is_some() {
            return true;
        }
        let mut dash = end;
        while dash > 0 && chars[dash - 1] != '-'
            invariant
                chars@ == locale@,
                dash <= end <= locale@.len(),
                last_index_of(locale@.take(end as int), '-') == last_index_of(
                    locale@.take(dash as int),
                    '-',
                ),
            decreases dash,
        {
            proof {
                assert(locale@.take(dash as int).drop_last() =~= locale@.take(dash - 1));
            }
            dash = dash - 1;
        }
        if dash == 0 {
            proof {
                assert(parent_locale(c) is None);
                assert(locale_chain(c) =~= seq![c]);
                assert(chain.len() == seen + 1) by {
                    assert(chain.subrange(seen, chain.len() as int).len() == 1);
                }
                assert forall|i: int| 0 <= i < chain.len() implies !table@.contains_key(#[trigger] chain[i]) by {
                    if i == seen {
                    }
                }
            }
            return false;
        }
        proof {
            assert(locale@.take(dash as int).last() == '-');
            assert(last_index_of(c, '-') == Some(dash - 1));
            assert(locale@.take(dash as int).drop_last() =~= locale@.take(dash - 1));
        }
        let mut cut = dash - 1;
        while cut >= 2 && chars[cut - 2] == '-' && chars[cut - 1] == 'x'
            invariant
                chars@ == locale@,
                cut < dash <= end <= locale@.len(),
                trim_private_tail(locale@.take(dash - 1)) == trim_private_tail(
                    locale@.take(cut as int),
                ),
            decreases cut,
        {
            proof {
                assert(locale@.take(cut as int).take(cut - 2) =~= locale@.take(cut - 2));
            }
            cut = cut - 2;
        }
        proof {
            assert(c.take(dash - 1) =~= locale@.take(dash - 1));
            assert(trim_private_tail(locale@.take(cut as int)) == locale@.take(cut as int));
            assert(parent_locale(c) == Some(locale@.take(cut as int)));
            lemma_parent_shorter(c);
            let p = locale@.take(cut as int);
            assert(locale_chain(c) =~= seq![c] + locale_chain(p));
            assert(chain.subrange(seen + 1, chain.len() as int) =~= locale_chain(p)) by {
                assert(chain.subrange(seen + 1, chain.len() as int) =~= chain.subrange(
                    seen,
                    chain.len() as int,
                ).drop_first());
            }
            assert(chain[seen + 1] == chain.subrange(seen + 1, chain.len() as int)[0]);
            seen = seen + 1;
        }
        end = cut;
    }
}

impl Default for I18n {
    /// No translations yet, locale `en`, not ready.
    fn default() -> (r: I18n)
        ensures
            r@ == (I18nView {
                current: seq!['e', 'n'],
                locales: Seq::empty(),
                translations: Map::empty(),
                fallback: Seq::empty(),
                ready: false,
                explicit: false,
                detected: None,
            }),
    {
        let en = "en";
        proof {
            reveal_strlit("en");
        }
        let locales: Vec<String> = Vec::new();
        let translations = Table::new();
        proof {
            assert(string_views(locales@) =~= Seq::<Seq<char>>::empty());
            assert(string_views(locales@).to_set() =~= translations@.dom());
        }
        let r = I18n {
            current: en.to_owned(),
            locales,
            translations,
            fallback: Vec::new(),
            ready: false,
            explicit: false,
            detected: None,
        };
        proof {
            assert(string_views(r.locales@) =~= Seq::<Seq<char>>::empty());
            assert(string_views(r.fallback@) =~= Seq::<Seq<char>>::empty());
            assert(r@.locales.to_set() =~= r@.translations.dom());
            assert(r@.current =~= seq!['e', 'n']);
        }
        r
    }
}

/// The locales tried for a font of `locale`: the locale, then each cut at its last
/// `-` (`en-US` -> `en`), until nothing is left.
pub open spec fn font_chain(s: Seq<char>) -> Seq<Seq<char>>
    decreases s.len(),
{
    if s.len() == 0 {
        Seq::empty()
    } else {
        match last_index_of(s, '-') {
            Some(i) => {
                proof {
                    lemma_last_index_bounds(s, '-');
                }
                seq![s] + font_chain(s.take(i))
            },
            None => seq![s],
        }
    }
}

/// The font of the first locale of `chain` that `fonts` has, else `fallback`.
pub open spec fn first_font(
    fonts: Map<Seq<char>, Seq<char>>,
    chain: Seq<Seq<char>>,
    fallback: Option<Seq<char>>,
) -> Option<Seq<char>>
    decreases chain.len(),
{
    if chain.len() == 0 {
        fallback
    } else if fonts.contains_key(chain[0]) {
        Some(fonts[chain[0]])
    } else {
        first_font(fonts, chain.drop_first(), fallback)
    }
}

/// The abstract state of a [`FontFolder`].
pub struct FontFolderView {
    pub dir: Seq<char>,
    pub fallback: Option<Seq<char>>,
    pub fonts: Map<Seq<char>, Seq<char>>,
}

/// The fonts of one font family: a font file per locale and a fallback font.
///
/// A lookup tries the most specific locale first and then cuts the locale at its
/// last `-` (`en-US` -> `en`); when no locale matches, the fallback font is used.
#[derive(Debug)]
pub struct FontFolder {
    /// Directory of the family, relative to the asset root.
    pub dir: String,
    /// File of the fallback font, if the family declares one.
    pub fallback: Option<String>,
    /// `locale -> font file`.
    pub fonts: TextMap,
}

impl View for FontFolder {
    type V = FontFolderView;

    open spec fn view(&self) -> FontFolderView {
        FontFolderView {
            dir: self.dir@,
            fallback: match self.fallback {
                Some(f) => Some(f@),
                None => None,
            },
            fonts: self.fonts@,
        }
    }
}

impl FontFolder {
    /// A family in `dir` without any font yet.
    pub fn new(dir: String) -> (r: FontFolder)
        ensures
            r@ == (FontFolderView { dir: dir@, fallback: None, fonts: Map::empty() }),
    {
        FontFolder { dir, fallback: None, fonts: TextMap::new() }
    }

    /// The font file for `locale` (see [`font_chain`]), or the fallback file.
    pub fn get(&self, locale: &str) -> (r: Option<&String>)
        ensures
            match r {
                Some(f) => first_font(self@.fonts, font_chain(locale@), self@.fallback) == Some(f@),
                None => first_font(self@.fonts, font_chain(locale@), self@.fallback) is None,
            },
    {
        let chars = chars_of(locale);
        let mut end = chars.len();
        proof {
            assert(locale@.take(end as int) =~= locale@);
        }
        while end > 0
            invariant
                chars@ == locale@,
                end <= locale@.len(),
                first_font(self@.fonts, font_chain(locale@), self@.fallback) == first_font(
                    self@.fonts,
                    font_chain(locale@.take(end as int)),
                    self@.fallback,
                ),
            decreases end,
        {
            let candidate = locale.substring_char(0, end);
            let ghost c = locale@.take(end as int);
            proof {
                assert(candidate@ =~= c);
                assert(font_chain(c)[0] == c);
            }
            if let Some(f) = self.fonts.get(candidate) {
                return Some(f);
            }
            let mut dash = end;
            while dash > 0 && chars[dash - 1] != '-'
                invariant
                    chars@ == locale@,
                    dash <= end <= locale@.len(),
                    last_index_of(locale@.take(end as int), '-') == last_index_of(
                        locale@.take(dash as int),
                        '-',
                    ),
                decreases dash,
            {
                proof {
                    assert(locale@.take(dash as int).drop_last() =~= locale@.take(dash - 1));
                }
                dash = dash - 1;
            }
            if dash == 0 {
                proof {
                    assert(font_chain(c) =~= seq![c]);
                    assert(font_chain(c).drop_first() =~= Seq::<Seq<char>>::empty());
                    assert(!self@.fonts.contains_key(c));
                    assert(first_font(self@.fonts, font_chain(c), self@.fallback) == first_font(
                        self@.fonts,
                        Seq::<Seq<char>>::empty(),
                        self@.fallback,
                    ));
                }
                return self.fallback_font();
            }
            proof {
                assert(locale@.take(dash as int).last() == '-');
                assert(last_index_of(c, '-') == Some(dash - 1));
                assert(c.take(dash - 1) =~= locale@.take(dash - 1));
                assert(font_chain(c).drop_first() =~= font_chain(locale@.take(dash - 1)));
            }
            end = dash - 1;
        }
        proof {
            assert(locale@.take(0) =~= Seq::<char>::empty());
        }
        self.fallback_font()
    }

    fn fallback_font(&self) -> (r: Option<&String>)
        ensures
            match r {
                Some(f) => self@.fallback == Some(f@),
                None => self@.fallback is None,
            },
    {
        match &self.fallback {
            Some(f) => Some(f),
            None => None,
        }
    }
}

/// Registry of the dynamic font families: `family -> fonts`.
#[derive(Debug)]
pub struct FontManager {
    families: Vec<(String, FontFolder)>,
}

impl View for FontManager {
    type V = Map<Seq<char>, FontFolderView>;

    closed spec fn view(&self) -> Map<Seq<char>, FontFolderView> {
        crate::table::alist_view(self.families@)
    }
}

impl FontManager {
    #[verifier::type_invariant]
    spec fn wf(self) -> bool {
        crate::table::keys_distinct(self.families@)
    }

    /// A registry without any family.
    pub fn new() -> (r: FontManager)
        ensures
            r@ == Map::<Seq<char>, FontFolderView>::empty(),
    {
        FontManager { families: Vec::new() }
    }

    fn position(&self, family: &str) -> (r: Option<usize>)
        ensures
            match r {
                Some(i) => i < self.families@.len() && self.families@[i as int].0@ == family@,
                None => !self@.contains_key(family@),
            },
    {
        let mut i: usize = 0;
        while i < self.families.len()
            invariant
                0 <= i <= self.families@.len(),
                forall|j: int| 0 <= j < i ==> self.families@[j].0@ != family@,
            decreases self.families@.len() - i,
        {
            if crate::text::str_eq(self.families[i].0.as_str(), family) {
                return Some(i);
            }
            i = i + 1;
        }
        proof {
            crate::table::lemma_alist_dom(self.families@, family@);
        }
        None
    }

    /// Registers (or replaces) the fonts of `family`.
    pub fn insert(&mut self, family: String, folder: FontFolder)
        ensures
            final(self)@ == old(self)@.insert(family@, folder@),
    {
        proof {
            use_type_invariant(&*self);
        }
        let pos = self.position(family.as_str());
        let mut taken = FontManager::new();
        std::mem::swap(&mut taken, self);
        let FontManager { mut families } = taken;
        match pos {
            Some(i) => {
                let (f, _old) = families.remove(i);
                proof {
                    crate::table::lemma_alist_update(old(self).families@, i as int, folder);
                    assert(old(self).families@.update(i as int, (f, folder)) =~= families@.insert(
                        i as int,
                        (f, folder),
                    ));
                }
                families.insert(i, (f, folder));
            },
            None => {
                proof {
                    crate::table::lemma_alist_push(families@, family, folder);
                }
                families.push((family, folder));
            },
        }
        *self = FontManager { families };
    }

    /// The fonts of `family`, if it is registered.
    pub fn folder(&self, family: &str) -> (r: Option<&FontFolder>)
        ensures
            match r {
                Some(f) => self@.contains_key(family@) && self@[family@] == f@,
                None => !self@.contains_key(family@),
            },
    {
        proof {
            use_type_invariant(self);
        }
        match self.position(family) {
            Some(i) => {
                proof {
                    crate::table::lemma_alist_index(self.families@, i as int);
                }
                Some(&self.families[i].1)
            },
            None => None,
        }
    }

    /// The font directory and file of `family` for `locale`: `None` when the family
    /// is unknown, or when neither a locale font nor a fallback font matches (the
    /// default font is used then).
    pub fn get(&self, family: &str, locale: &str) -> (r: Option<(&String, &String)>)
        ensures
            match r {
                Some((dir, file)) => self@.contains_key(family@) && dir@ == self@[family@].dir
                    && first_font(self@[family@].fonts, font_chain(locale@), self@[family@].fallback)
                    == Some(file@),
                None => !self@.contains_key(family@) || first_font(
                    self@[family@].fonts,
                    font_chain(locale@),
                    self@[family@].fallback,
                ) is None,
            },
    {
        match self.folder(family) {
            Some(folder) => match folder.get(locale) {
                Some(file) => Some((&folder.dir, file)),
                None => None,
            },
            None => None,
        }
    }
}

/// A key present in the requested locale itself is found there.
pub proof fn law_exact_locale_wins(table: Tables, fallback: Seq<Seq<char>>, locale: Seq<char>, key: Seq<char>)
    requires
        has_text(table, locale, key),
    ensures
        translation(table, fallback, locale, key) == Some(table[locale][key]),
{
    assert(lookup_candidates(locale, fallback)[0] == locale);
}

/// A key missing in a locale with a parent is looked up as in the parent
/// (`zh-TW-x` misses, then `zh-TW` is tried, …).
pub proof fn law_miss_tries_parent(table: Tables, fallback: Seq<Seq<char>>, locale: Seq<char>, key: Seq<char>)
    requires
        !has_text(table, locale, key),
        parent_locale(locale) is Some,
    ensures
        translation(table, fallback, locale, key) == translation(
            table,
            fallback,
            parent_locale(locale)->0,
            key,
        ),
{
    let p = parent_locale(locale)->0;
    lemma_parent_shorter(locale);
    assert(lookup_candidates(locale, fallback)[0] == locale);
    assert(lookup_candidates(locale, fallback).drop_first() =~= lookup_candidates(p, fallback));
}

/// A key missing in a locale without parent is looked up in the fallback
/// locales only.
pub proof fn law_miss_without_parent_uses_fallback(
    table: Tables,
    fallback: Seq<Seq<char>>,
    locale: Seq<char>,
    key: Seq<char>,
)
    requires
        !has_text(table, locale, key),
        parent_locale(locale) is None,
    ensures
        translation(table, fallback, locale, key) == first_hit(table, fallback, key),
{
    assert(lookup_candidates(locale, fallback)[0] == locale);
    assert(lookup_candidates(locale, fallback).drop_first() =~= fallback);
}

proof fn lemma_first_hit(table: Tables, candidates: Seq<Seq<char>>, key: Seq<char>)
    ensures
        first_hit(table, candidates, key) matches Some(t) ==> exists|i: int|
            0 <= i < candidates.len() && has_text(table, #[trigger] candidates[i], key)
                && table[candidates[i]][key] == t,
        first_hit(table, candidates, key) is None <==> forall|i: int|
            0 <= i < candidates.len() ==> !has_text(table, #[trigger] candidates[i], key),
    decreases candidates.len(),
{
    if candidates.len() > 0 {
        let rest = candidates.drop_first();
        lemma_first_hit(table, rest, key);
        if !has_text(table, candidates[0], key) {
            if let Some(t) = first_hit(table, rest, key) {
                let i = choose|i: int| 0 <= i < rest.len() && has_text(table, #[trigger] rest[i], key)
                    && table[rest[i]][key] == t;
                assert(candidates[i + 1] == rest[i]);
            }
            if first_hit(table, rest, key) is None {
                assert forall|i: int| 0 <= i < candidates.len() implies !has_text(
                    table,
                    #[trigger] candidates[i],
                    key,
                ) by {
                    if i > 0 {
                        assert(candidates[i] == rest[i - 1]);
                    }
                }
            }
        }
    }
}

/// No implicit fallback: a translation always comes from the requested locale,
/// one of its parents or an explicit fallback locale, and a lookup misses exactly
/// when none of those has the key (the default locale is not tried on its own).
pub proof fn law_translation_comes_from_candidates(
    table: Tables,
    fallback: Seq<Seq<char>>,
    locale: Seq<char>,
    key: Seq<char>,
)
    ensures
        translation(table, fallback, locale, key) matches Some(t) ==> exists|i: int|
            0 <= i < lookup_candidates(locale, fallback).len() && has_text(
                table,
                #[trigger] lookup_candidates(locale, fallback)[i],
                key,
            ) && table[lookup_candidates(locale, fallback)[i]][key] == t,
        translation(table, fallback, locale, key) is None <==> forall|i: int|
            0 <= i < lookup_candidates(locale, fallback).len() ==> !has_text(
                table,
                #[trigger] lookup_candidates(locale, fallback)[i],
                key,
            ),
{
    lemma_first_hit(table, lookup_candidates(locale, fallback), key);
}

/// An explicitly chosen locale survives every table rebuild (hot reload, a late
/// manifest, a detected system locale).
pub proof fn law_explicit_locale_survives_rebuild(state: I18nView, table: Tables, default_locale: Seq<char>)
    requires
        state.explicit,
    ensures
        starting_locale(state, table, default_locale) == state.current,
{
}

/// With no explicit locale and no shipped detected locale, loading a table makes
/// the manifest's `default_locale` the current locale whenever it is non-empty
/// and a locale identifier, whatever the current locale was before.
pub proof fn law_manifest_default_locale_applies(state: I18nView, table: Tables, default_locale: Seq<char>)
    requires
        !state.explicit,
        !(state.detected is Some && ships(table, state.detected->0)),
        default_locale.len() > 0,
        is_valid_locale(default_locale),
    ensures
        starting_locale(state, table, default_locale) == default_locale,
{
}

/// A family without a font for a locale serves the locale cut at its last `-`
/// exactly as it serves that shorter locale (`ja-JP` gets the `ja` font), as long
/// as something is left before the `-`.
pub proof fn law_font_lookup_cuts_at_last_dash(
    fonts: Map<Seq<char>, Seq<char>>,
    fallback: Option<Seq<char>>,
    locale: Seq<char>,
    i: int,
)
    requires
        last_index_of(locale, '-') == Some(i),
        i > 0,
        !fonts.contains_key(locale),
    ensures
        first_font(fonts, font_chain(locale), fallback) == first_font(fonts, font_chain(locale.take(i)), fallback),
        fonts.contains_key(locale.take(i)) ==> first_font(fonts, font_chain(locale), fallback) == Some(
            fonts[locale.take(i)],
        ),
{
    lemma_last_index_bounds(locale, '-');
    let rest = locale.take(i);
    assert(font_chain(locale) == seq![locale] + font_chain(rest));
    assert(font_chain(locale)[0] == locale);
    assert(font_chain(locale).drop_first() =~= font_chain(rest));
    assert(rest.len() > 0);
    match last_index_of(rest, '-') {
        Some(k) => {
            lemma_last_index_bounds(rest, '-');
            assert(font_chain(rest) == seq![rest] + font_chain(rest.take(k)));
        },
        None => {
            assert(font_chain(rest) == seq![rest]);
        },
    }
    assert(font_chain(rest)[0] == rest);
}

} // verus!
