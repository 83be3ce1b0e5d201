[package]
name = "tinyfs_rs"
version = "0.1.0"
edition = "2021"
publish = false

[dependencies]
ansi_colours = { version = "1", features = ["ansi_term"] }
ansi_term = "0.12"
anyhow = "1"
chrono = "0.4"
image = { version = "0.24", default-features = false, features = ["jpeg"] }
supports-color = "2"
thiserror = "1"

[dev-dependencies]
bincode = "1"
