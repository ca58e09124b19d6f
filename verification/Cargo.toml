[package]
name = "pult_desktop"
version = "0.1.0"
edition = "2021"
publish = false

[dependencies]
sha2 = "0.10"
nix = { version = "*", features = ["signal"] }
serde = { version = "1", features = ["derive"] }
serde_json = "1"
tokio = { version = "1", features = ["process", "io-util", "time", "rt", "macros", "sync"] }
which = "*"
dirs = "*"
