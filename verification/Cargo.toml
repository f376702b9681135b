[package]
name = "nix_init"
version = "0.1.0"
edition = "2021"
publish = false

[dependencies]
anyhow = "1"
chumsky = "*"
clap = { version = "4", features = ["derive"] }
heck = "0.4"
pep-508 = "*"
reqwest = { version = "0.11", default-features = false, features = ["blocking", "json"] }
semver = "1"
serde = { version = "1", features = ["derive"] }
serde_json = "1"
serde_yaml = "0.9"
shlex = "1"
toml = "0.8"
