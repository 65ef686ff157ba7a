[package]
name = "krets"
version = "0.1.0"
edition = "2021"
publish = false

[dependencies]
clap = { version = "4", features = ["derive"] }
serde = { version = "1", features = ["derive"] }
toml = "*"
faer = "*"
log = "0.4"
thiserror = "*"

[dev-dependencies]
nom = "*"
