[package]
name = "gdl"
version = "0.1.0"
edition = "2021"
publish = false

[dependencies]
gix = "*"
gix-diff = "*"
crossterm = "0.29"
serde = { version = "1", features = ["derive"] }
serde_json = "1"
clap = { version = "4", features = ["derive"] }
rmcp = { version = "*", features = ["server", "transport-io", "macros"] }
tokio = { version = "1", features = ["rt-multi-thread", "macros", "io-std"] }

[dev-dependencies]
strip-ansi-escapes = "*"
