//! The plugin's configuration and the table rebuild that runs whenever the manifest
//! or a locale file is added, modified (hot reload) or finishes loading.
use vstd::prelude::*;

use crate::assets::{FontFamilyEntry, I18nManifest};
use crate::parse::{last_index_of, Tables};
use crate::resources::{
    has_text, locales_listed, starting_locale, FontFolder, FontFolderView, FontManager, I18n, I18nView,
};
use crate::table::{merged, Table, TextMap};
use crate::text::{chars_of, str_eq, string_views};

verus! {

/// The plugin's configuration: where the manifest lives.
#[derive(Clone, Debug)]
pub struct I18nPlugin {
    /// Asset path of the i18n manifest, relative to the asset root.
    pub manifest_path: String,
}

/// `locales/i18n.ron`.
pub open spec fn default_manifest_path() -> Seq<char> {
    seq!['l', 'o', 'c', 'a', 'l', 'e', 's', '/', 'i', '1', '8', 'n', '.', 'r', 'o', 'n']
}

impl Default for I18nPlugin {
    /// The manifest at `locales/i18n.ron`.
    fn default() -> (r: I18nPlugin)
        ensures
            r.manifest_path@ == default_manifest_path(),
    {
        let path = "locales/i18n.ron";
        proof {
            reveal_strlit("locales/i18n.ron");
            assert(path@ =~= default_manifest_path());
        }
        I18nPlugin { manifest_path: path.to_owned() }
    }
}

impl I18nPlugin {
    /// Uses a manifest at a non-default location.
    pub fn with_manifest(path: &str) -> (r: I18nPlugin)
        ensures
            r.manifest_path@ == path@,
    {
        I18nPlugin { manifest_path: path.to_owned() }
    }
}

/// What happened to an asset (the manifest or a locale file).
#[derive(Clone, Copy, Debug, PartialEq, Eq, Structural)]
pub enum AssetChange {
    Added,
    Modified,
    Removed,
    Unused,
    LoadedWithDependencies,
}

/// A change that calls for a rebuild of the translation table.
pub open spec fn is_relevant_change(c: AssetChange) -> bool {
    c == AssetChange::Added || c == AssetChange::Modified || c == AssetChange::LoadedWithDependencies
}

/// Whether `change` calls for a rebuild of the translation table.
pub fn is_relevant(change: AssetChange) -> (r: bool)
    ensures
        r == is_relevant_change(change),
{
    match change {
        AssetChange::Added | AssetChange::Modified | AssetChange::LoadedWithDependencies => true,
        AssetChange::Removed | AssetChange::Unused => false,
    }
}

/// Whether the table must be rebuilt this frame: some asset was added, modified or
/// finished loading, or a locale file failed to load (its translations are then
/// skipped, which changes the table too).
pub fn needs_rebuild(changes: &[AssetChange], file_failures: usize) -> (r: bool)
    ensures
        r == (file_failures > 0 || exists|i: int| 0 <= i < changes@.len() && is_relevant_change(#[trigger] changes@[i])),
{
    let mut hit = file_failures > 0;
    let mut i: usize = 0;
    while i < changes.len()
        invariant
            0 <= i <= changes@.len(),
            hit == (file_failures > 0 || exists|k: int| 0 <= k < i && is_relevant_change(#[trigger] changes@[k])),
        decreases changes@.len() - i,
    {
        // Every change is looked at: none is left over for the next frame.
        hit = is_relevant(changes[i]) || hit;
        i = i + 1;
    }
    hit
}

/// The tables of the loaded files merged in list order (later files win);
/// files that are not loaded (`None`) are skipped.
pub open spec fn merged_files(files: Seq<Option<Tables>>) -> Tables
    decreases files.len(),
{
    if files.len() == 0 {
        Map::empty()
    } else {
        match files.last() {
            Some(t) => merged(merged_files(files.drop_last()), t),
            None => merged_files(files.drop_last()),
        }
    }
}

/// The abstract value of a list of possibly loaded tables.
pub open spec fn loaded_views(files: Seq<Option<Table>>) -> Seq<Option<Tables>> {
    files.map_values(
        |f: Option<Table>|
            match f {
                Some(t) => Some(t@),
                None => None,
            },
    )
}

/// Merges the tables of the loaded files in list order: on a conflicting
/// `(locale, key)` the later file wins.
pub fn merge_files(files: Vec<Option<Table>>) -> (r: Table)
    ensures
        r@ == merged_files(loaded_views(files@)),
{
    let ghost all = loaded_views(files@);
    let mut table = Table::new();
    let mut rest = files;
    let mut pending: Vec<Option<Table>> = Vec::new();
    // Reverse, so that popping yields the files in list order.
    while rest.len() > 0
        invariant
            all == loaded_views(files@),
            pending@ + rest@.reverse() == files@.reverse(),
        decreases rest@.len(),
    {
        let ghost r0 = rest@;
        let f = rest.pop().unwrap();
        pending.push(f);
        proof {
            assert(r0.reverse() =~= seq![f] + rest@.reverse());
            assert(pending@ + rest@.reverse() =~= files@.reverse());
        }
    }
    proof {
        assert(pending@ =~= files@.reverse());
        assert(loaded_views(files@).take(0) =~= Seq::<Option<Tables>>::empty());
    }
    let n = pending.len();
    let mut i: usize = 0;
    while i < n
        invariant
            all == loaded_views(files@),
            n == files@.len(),
            0 <= i <= n,
            pending@.len() == n - i,
            pending@ == files@.subrange(i as int, n as int).reverse(),
            table@ == merged_files(all.take(i as int)),
        decreases n - i,
    {
        let ghost p0 = pending@;
        let f = pending.pop().unwrap();
        proof {
            assert(p0.last() == files@[i as int]);
            assert(all.take(i + 1).drop_last() =~= all.take(i as int));
            assert(all.take(i + 1).last() == all[i as int]);
            assert(pending@ =~= files@.subrange(i + 1, n as int).reverse());
        }
        if let Some(t) = f {
            table.merge(t);
        }
        i = i + 1;
    }
    proof {
        assert(all.take(n as int) =~= all);
    }
    table
}

/// `"fallback"`.
pub open spec fn fallback_stem() -> Seq<char> {
    seq!['f', 'a', 'l', 'l', 'b', 'a', 'c', 'k']
}

/// A font file's stem: the name before its last `.`, or the whole name.
pub open spec fn file_stem(file: Seq<char>) -> Seq<char> {
    match last_index_of(file, '.') {
        Some(i) => file.take(i),
        None => file,
    }
}

/// The fonts of a family after registering `files` in order: the stem `fallback`
/// sets the fallback font, any other stem the font of that locale.
pub open spec fn folder_of(folder: FontFolderView, files: Seq<Seq<char>>) -> FontFolderView
    decreases files.len(),
{
    if files.len() == 0 {
        folder
    } else {
        let before = folder_of(folder, files.drop_last());
        let f = files.last();
        if file_stem(f) == fallback_stem() {
            FontFolderView { fallback: Some(f), ..before }
        } else {
            FontFolderView { fonts: before.fonts.insert(file_stem(f), f), ..before }
        }
    }
}

/// The abstract value of a font family entry.
pub struct FontFamilyView {
    pub family: Seq<char>,
    pub dir: Seq<char>,
    pub files: Seq<Seq<char>>,
}

pub open spec fn family_view(e: FontFamilyEntry) -> FontFamilyView {
    FontFamilyView { family: e.family@, dir: e.dir@, files: string_views(e.files@) }
}

/// The font registry a list of family entries yields (a later entry of the same
/// family replaces an earlier one).
pub open spec fn font_registry(entries: Seq<FontFamilyView>) -> Map<Seq<char>, FontFolderView>
    decreases entries.len(),
{
    if entries.len() == 0 {
        Map::empty()
    } else {
        let e = entries.last();
        font_registry(entries.drop_last()).insert(
            e.family,
            folder_of(FontFolderView { dir: e.dir, fallback: None, fonts: Map::empty() }, e.files),
        )
    }
}

fn stem_of(file: &str) -> (r: String)
    ensures
        r@ == file_stem(file@),
{
    let chars = chars_of(file);
    let mut k = chars.len();
    proof {
        assert(file@.take(k as int) =~= file@);
    }
    while k > 0
        invariant
            chars@ == file@,
            k <= file@.len(),
            last_index_of(file@, '.') == last_index_of(file@.take(k as int), '.'),
        decreases k,
    {
        if chars[k - 1] == '.' {
            proof {
                assert(file@.take(k as int).last() == file@[k - 1]);
            }
            return file.substring_char(0, k - 1).to_owned();
        }
        proof {
            assert(file@.take(k as int).drop_last() =~= file@.take(k - 1));
        }
        k = k - 1;
    }
    file.to_owned()
}

/// The fonts of one manifest family entry.
fn family_folder(entry: &FontFamilyEntry) -> (r: FontFolder)
    ensures
        r@ == folder_of(
            FontFolderView { dir: entry.dir@, fallback: None, fonts: Map::empty() },
            string_views(entry.files@),
        ),
{
    let ghost files = string_views(entry.files@);
    let ghost start = FontFolderView { dir: entry.dir@, fallback: None, fonts: Map::empty() };
    let mut folder = FontFolder::new(entry.dir.clone());
    let fallback = "fallback";
    proof {
        reveal_strlit("fallback");
        assert(fallback@ =~= fallback_stem());
    }
    let mut i: usize = 0;
    while i < entry.files.len()
        invariant
            files == string_views(entry.files@),
            fallback@ == fallback_stem(),
            0 <= i <= entry.files@.len(),
            folder@ == folder_of(start, files.take(i as int)),
        decreases entry.files@.len() - i,
    {
        let file = &entry.files[i];
        let stem = stem_of(file.as_str());
        proof {
            assert(files.take(i + 1).drop_last() =~= files.take(i as int));
            assert(files.take(i + 1).last() == file@);
        }
        if str_eq(stem.as_str(), fallback) {
            folder.fallback = Some(file.clone());
        } else {
            folder.fonts.insert(stem, file.clone());
        }
        i = i + 1;
    }
    proof {
        assert(files.take(entry.files@.len() as int) =~= files);
    }
    folder
}

/// The font registry of the manifest's font family entries.
pub fn build_font_registry(entries: &Vec<FontFamilyEntry>) -> (r: FontManager)
    ensures
        r@ == font_registry(entries@.map_values(|e: FontFamilyEntry| family_view(e))),
{
    let ghost views = entries@.map_values(|e: FontFamilyEntry| family_view(e));
    let mut registry = FontManager::new();
    let mut i: usize = 0;
    while i < entries.len()
        invariant
            views == entries@.map_values(|e: FontFamilyEntry| family_view(e)),
            0 <= i <= entries@.len(),
            registry@ == font_registry(views.take(i as int)),
        decreases entries@.len() - i,
    {
        let folder = family_folder(&entries[i]);
        proof {
            assert(views.take(i + 1).drop_last() =~= views.take(i as int));
            assert(views.take(i + 1).last() == family_view(entries@[i as int]));
        }
        registry.insert(entries[i].family.clone(), folder);
        i = i + 1;
    }
    proof {
        assert(views.take(entries@.len() as int) =~= views);
    }
    registry
}

/// Rebuilds the translation state from the manifest and its locale files (in
/// manifest order; `None` for a file that is not loaded), and returns the rebuilt
/// font registry.
///
/// Readiness latches: it stays on once set, and turns on when the manifest's load
/// reached a terminal state (`terminal`: fully loaded, or failed).
pub fn rebuild(i18n: &mut I18n, manifest: &I18nManifest, files: Vec<Option<Table>>, terminal: bool) -> (r:
    FontManager)
    ensures
        final(i18n)@ == (I18nView {
            current: starting_locale(
                old(i18n)@,
                merged_files(loaded_views(files@)),
                manifest.default_locale@,
            ),
            locales: final(i18n)@.locales,
            translations: merged_files(loaded_views(files@)),
            fallback: string_views(manifest.fallback@),
            ready: old(i18n)@.ready || terminal,
            ..old(i18n)@
        }),
        locales_listed(final(i18n)@),
        r@ == font_registry(manifest.fonts@.map_values(|e: FontFamilyEntry| family_view(e))),
{
    let table = merge_files(files);
    let ready = i18n.ready() || terminal;
    i18n.apply_table(table, manifest.default_locale.as_str(), manifest.fallback.clone(), ready);
    build_font_registry(&manifest.fonts)
}

/// A loaded file that has a text for `key` in `locale`.
pub open spec fn defines(file: Option<Tables>, locale: Seq<char>, key: Seq<char>) -> bool {
    file matches Some(t) && has_text(t, locale, key)
}

/// Later files win: the merged text of `(locale, key)` is the one of the last
/// loaded file that defines it.
pub proof fn law_later_file_wins(files: Seq<Option<Tables>>, locale: Seq<char>, key: Seq<char>, j: int)
    requires
        0 <= j < files.len(),
        defines(files[j], locale, key),
        forall|m: int| j < m < files.len() ==> !defines(#[trigger] files[m], locale, key),
    ensures
        has_text(merged_files(files), locale, key),
        merged_files(files)[locale][key] == files[j]->0[locale][key],
    decreases files.len(),
{
    let prev = files.drop_last();
    if j < files.len() - 1 {
        assert forall|m: int| j < m < prev.len() implies !defines(#[trigger] prev[m], locale, key) by {
            assert(prev[m] == files[m]);
        }
        law_later_file_wins(prev, locale, key, j);
        assert(!defines(files[files.len() - 1], locale, key));
    }
}

/// A key that no loaded file defines is not in the merged table either.
pub proof fn law_undefined_key_stays_undefined(files: Seq<Option<Tables>>, locale: Seq<char>, key: Seq<char>)
    requires
        forall|m: int| 0 <= m < files.len() ==> !defines(#[trigger] files[m], locale, key),
    ensures
        !has_text(merged_files(files), locale, key),
    decreases files.len(),
{
    if files.len() > 0 {
        let prev = files.drop_last();
        assert forall|m: int| 0 <= m < prev.len() implies !defines(#[trigger] prev[m], locale, key) by {
            assert(prev[m] == files[m]);
        }
        law_undefined_key_stays_undefined(prev, locale, key);
        assert(!defines(files[files.len() - 1], locale, key));
    }
}

} // verus!
