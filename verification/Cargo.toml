[package]
name = "pulso"
version = "0.1.0"
edition = "2021"
publish = false

[dependencies]
nanoid = "0.4"
sha2 = "0.10"
serde = { version = "1", features = ["derive"] }
serde_json = "1"
zip = { version = "2", default-features = false, features = ["deflate"] }
anyhow = "1"
dirs = "6"
glib = "0.21"
gio = "0.21"
cairo-rs = { version = "0.21", features = ["pdf"] }
pango = "0.21"
pangocairo = "0.21"
gdk-pixbuf = "0.21"
gtk4 = { version = "0.10", features = ["v4_18"] }
libadwaita = { version = "0.8", features = ["v1_7"] }
gettext-rs = "0.7"
