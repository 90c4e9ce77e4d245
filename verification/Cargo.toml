[package]
name = "hydra"
version = "0.1.0"
edition = "2021"
publish = false

[dependencies]
rand = "=0.8.8"
gen_passphrase = { version = "=0.1.1", features = ["eff_short_2"] }
tokio = { version = "=1.54.1", features = ["full"] }
serde = { version = "=1.0.229", features = ["derive"] }
serde_json = "=1.0.154"
clap = { version = "=4.6.7", features = ["derive"] }
dotenvy = "=0.15.7"
tracing = "=0.1.44"
tracing-subscriber = "=0.3.23"
color-eyre = { version = "=0.6.5", default-features = false }
reqwest = { version = "=0.12.28", default-features = false }
bollard = "=0.17.1"
futures = "=0.3.34"
async-trait = "=0.1.92"
russh = "=0.44.1"
russh-keys = "=0.44.0"
russh-sftp = "=2.4.0"
walkdir = "=2.5.0"
zip = { version = "=2.6.1", default-features = false, features = ["zstd"] }
tokio-stream = "=0.1.19"
tokio-util = { version = "=0.7.20", features = ["codec"] }
