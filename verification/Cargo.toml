[package]
name = "spacecal_for_monado"
version = "0.1.0"
edition = "2021"
publish = false

[dependencies]
nalgebra = "0.33"
serde = { version = "1", features = ["derive"] }
serde_json = "1"
toml = "0.8"
chrono = { version = "0.4", features = ["serde"] }
dirs = "6"
thiserror = "2"
async-channel = "2"
mint = "0.5"
libmonado = "*"
openxr = { version = "0.19", features = ["loaded"] }
gtk4 = { version = "0.9", features = ["v4_12"] }
libadwaita = { version = "0.7", features = ["v1_5"] }
