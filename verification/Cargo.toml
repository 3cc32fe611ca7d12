[package]
name = "pfnc"
version = "0.1.0"
edition = "2021"
publish = false

[dependencies]
anyhow = "1"
camino = "1"
crossbeam-channel = "0.5"
crossterm = "0.28"
directories = "5"
quinn = { version = "0.11", default-features = false, features = ["runtime-tokio", "rustls-ring"] }
ratatui = "0.29"
rcgen = { version = "0.14", default-features = false, features = ["ring", "pem", "crypto"] }
rustls = { version = "0.23", default-features = false, features = ["ring", "std", "tls12"] }
serde = { version = "1", features = ["derive"] }
ssh2 = "0.9"
tar = "0.4"
tempfile = "3"
thiserror = "1"
tokio = { version = "1", features = ["rt", "rt-multi-thread", "macros", "net", "time", "io-util"] }
toml = "0.8"
tracing = "0.1"
tracing-appender = "0.2"
tracing-subscriber = { version = "0.3", features = ["env-filter"] }
xxhash-rust = { version = "0.8", features = ["xxh64"] }
zip = { version = "2", default-features = false, features = ["deflate"] }
zstd = "0.13"
