[package]
name = "bene_snake"
version = "0.1.0"
edition = "2021"
publish = false

[dependencies]
battlesnake-game-types = "*"
rand = "0.8"
serde = { version = "1", features = ["derive"] }
serde_json = "1"
axum = "0.8"
tokio = { version = "1", features = ["macros", "net", "rt-multi-thread", "time"] }
clap = { version = "4", features = ["derive"] }
colored = "2"
indicatif = "0.17"
rayon = "1"
tabled = "*"
color-eyre = "0.6"
dotenvy = "0.15"
mimalloc = { version = "0.1", default-features = false }
sentry = { version = "*", default-features = false }
tracing = "0.1"
tracing-subscriber = "0.3"
simd-json = "*"
reqwest = { version = "0.12", default-features = false }
