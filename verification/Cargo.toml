[package]
name = "bevy_simple_i18n"
version = "0.4.0"
edition = "2021"
publish = false

[dependencies]
serde_json = "=1.0.154"
serde_yaml = "=0.9.34"
toml = "=0.8.23"
icu_locale_core = "=2.4.0"
icu_plurals = "=2.4.0"
icu_decimal = { version = "=2.4.0", features = ["alloc"] }
fixed_decimal = { version = "=0.7.3", features = ["ryu"] }
ron = "=0.10.1"
serde = { version = "=1.0.229", features = ["derive"] }
thiserror = "=2.0.21"
bevy = { version = "=0.19.1", default-features = false, features = ["bevy_asset", "bevy_text", "bevy_ui", "bevy_sprite"] }
bevy_device_lang = "*"
