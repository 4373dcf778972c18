# bevy_simple_i18n

A small internationalization library for the Bevy game engine, with its core
verified by Verus.

## Layout

- `src/` — the verified library:
  - `parse.rs`: locale files (JSON, YAML, TOML; v1 per-locale and v2 multi-locale
    layouts) into translation tables;
  - `table.rs`: translation tables and their merge (later files win);
  - `resources.rs`: the translation state (`I18n`): current locale, lookup along the
    BCP-47 truncation chain and the explicit fallback locales, readiness, system
    locale detection; and the dynamic-font registry;
  - `interpolate.rs`: `%{name}` interpolation, first match wins;
  - `plural.rs`: plural sub-key selection (exact integer, CLDR category, `other`,
    bare key);
  - `number.rs`, `locale.rs`: decimals, locale tags and locale-aware formatting;
  - `components.rs`: the text and number components and what they render;
  - `assets.rs`, `plugin.rs`: the manifest, and the rebuild that runs when assets
    change.
- `app/` — the Bevy side: asset loaders, ECS components and resources, systems.
- `tests/` — tests of the library.

The laws the library keeps (lookup order, merge order, interpolation, plural
fallback, explicit locales surviving reloads, …) are public proof functions named
`law_*` next to the code they are about.
