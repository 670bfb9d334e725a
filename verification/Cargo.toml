[package]
name = "dhammapada"
version = "0.1.0"
edition = "2021"
publish = false

[dependencies]
libadwaita = "*"
gtk4 = "*"
glib = "*"
gettext-rs = "*"
serde = { version = "1", features = ["derive"] }
toml = "*"
