//! The names most users need, in one place.
pub use crate::assets::{default_locale_en, FontFamilyEntry, I18nManifest, TranslationFile};
pub use crate::components::{
    translate_by_key, translate_plural, I18nComponent, I18nFont, I18nNumber, I18nText,
    InterpolationType,
};
pub use crate::interpolate::interpolate;
pub use crate::locale::{detected_locale, hyphenate, is_valid_locale_tag};
pub use crate::number::FixedDecimal;
pub use crate::parse::{join, parse_file, table_from_document, Node, NumberLeaf, ParseError};
pub use crate::plugin::{
    build_font_registry, merge_files, needs_rebuild, rebuild, AssetChange, I18nPlugin,
};
pub use crate::plural::{resolve_plural_key, PluralCategory};
pub use crate::resources::{FontFolder, FontManager, I18n};
pub use crate::table::{merge_into, Table, TextMap};
