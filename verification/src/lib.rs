//! Verified core of a small internationalization library: locale-file parsing,
//! translation tables, locale fallback, plural-key selection and `%{name}`
//! interpolation.
pub mod assets;
pub mod components;
pub mod interpolate;
pub mod locale;
pub mod number;
pub mod parse;
pub mod plugin;
pub mod plural;
pub mod resources;
pub mod table;
pub mod prelude;
pub mod text;
