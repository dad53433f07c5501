[package]
name = "md_render"
version = "0.1.0"
edition = "2021"
publish = false

[dependencies]
pulldown-cmark = { version = "=0.8.0", default-features = false }
tera = { version = "=1.20.1", default-features = false }
syntect = { version = "=5.3.0", default-features = false, features = ["parsing", "default-syntaxes", "default-themes", "html", "regex-fancy", "plist-load", "yaml-load"] }
gh-emoji = "=1.0.9"
slug = "=0.1.6"
serde = { version = "=1.0.229", features = ["derive"] }
serde_derive = "=1.0.229"
