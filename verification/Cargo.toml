[package]
name = "mc-velocity-installer"
version = "0.1.0"
edition = "2021"
publish = false

[dependencies]
toml_edit = "*"
sha2 = "*"
serde = { version = "*", features = ["derive"] }
serde_json = "*"
reqwest = { version = "*", default-features = false, features = ["blocking"] }
