[package]
name = "pose"
version = "0.1.0"
edition = "2021"
publish = false

[dependencies]
tokio = { version = "=1.53.2", features = ["sync", "net", "signal", "rt-multi-thread", "macros", "io-util"] }
rand = "=0.10.3"
clap = "=2.34.0"
nom = "=7.1.3"
anyhow = "=1.0.104"
sqlx = { version = "=0.9.0", features = ["runtime-tokio", "sqlite"] }
warp = { version = "=0.4.3", features = ["server"] }

[dev-dependencies]
serde_json = "=1.0.151"
