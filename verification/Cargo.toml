[package]
name = "hajizip"
version = "0.1.0"
edition = "2021"
publish = false

[dependencies]
anyhow = "=1.0.104"
chardetng = "=0.1.17"
dioxus = { version = "=0.7.10", default-features = false, features = ["macro", "html", "signals", "hooks", "launch", "document"] }
dirs = "=7.0.0"
encoding_rs = "=0.8.44"
filetime = "=0.2.29"
flate2 = "=1.1.10"
lzma-rust2 = "=0.25.0"
rars = "=0.12.3"
rfd = { version = "=0.17.2", default-features = false, features = ["xdg-portal"] }
serde = { version = "=1.0.229", features = ["derive"] }
sevenz-rust2 = { version = "=0.24.2", features = ["zstd"] }
tar = "=0.4.46"
thiserror = "=2.0.21"
time = { version = "=0.3.55", features = ["local-offset"] }
tokio = { version = "=1.54.1", features = ["sync"] }
toml = "=1.1.8"
zip = { version = "=9.2.2", default-features = false, features = ["deflate-flate2", "time"] }
