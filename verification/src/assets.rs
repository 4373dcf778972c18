//! The data of the two asset kinds: one parsed locale file, and the manifest that
//! declares which locale files and font families exist.
use vstd::prelude::*;

use crate::parse::Tables;
use crate::table::{texts_of, Table};

verus! {

/// A single parsed locale file: `locale -> (flat key -> text)`.
#[derive(Debug)]
pub struct TranslationFile {
    table: Table,
}

impl View for TranslationFile {
    type V = Tables;

    closed spec fn view(&self) -> Tables {
        self.table@
    }
}

impl TranslationFile {
    /// The file holding `table`.
    pub fn new(table: Table) -> (r: TranslationFile)
        ensures
            r@ == table@,
    {
        TranslationFile { table }
    }

    /// The translations of the file.
    pub fn table(&self) -> (r: &Table)
        ensures
            r@ == self@,
    {
        &self.table
    }

    /// Sets or overrides a single translation at runtime.
    pub fn set_translation(&mut self, locale: &str, key: &str, text: &str)
        ensures
            final(self)@ == old(self)@.insert(locale@, texts_of(old(self)@, locale@).insert(key@, text@)),
    {
        self.table.insert(locale.to_owned(), key.to_owned(), text.to_owned());
    }
}

/// One `fonts:` entry of the manifest.
#[derive(Clone, Debug)]
pub struct FontFamilyEntry {
    pub family: String,
    /// Directory relative to the asset root, e.g. `fonts/NotoSans`.
    pub dir: String,
    /// Font files inside `dir`. The stem is the locale (`ja.ttf` serves `ja`);
    /// the stem `fallback` marks the family's fallback font.
    pub files: Vec<String>,
}

/// The i18n manifest: the starting locale, the explicit fallback locales, the
/// locale files (list order is merge order: later files win) and the dynamic
/// font families.
#[derive(Clone, Debug)]
pub struct I18nManifest {
    pub default_locale: String,
    pub fallback: Vec<String>,
    /// Paths of the locale files, relative to the manifest's directory.
    pub files: Vec<String>,
    pub fonts: Vec<FontFamilyEntry>,
}

/// The starting locale of a manifest that names none: `en`.
pub fn default_locale_en() -> (r: String)
    ensures
        r@ == seq!['e', 'n'],
{
    let en = "en";
    proof {
        reveal_strlit("en");
        assert(en@ =~= seq!['e', 'n']);
    }
    en.to_owned()
}

} // verus!
