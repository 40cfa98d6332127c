[package]
name = "trmnl_console"
version = "0.1.0"
edition = "2021"
publish = false

[dependencies]
shadow-terminal = "=0.2.3"
unicode-normalization = "=0.1.26"
serde = { version = "=1.0.229", features = ["derive"] }
serde_json = "=1.0.154"
reqwest = { version = "=0.12.28", default-features = false, features = ["json"] }
tokio = { version = "=1.54.1", features = ["full"] }
clap = { version = "=4.6.7", features = ["derive"] }
owo-colors = { version = "=4.4.0", features = ["supports-colors"] }
interprocess = { version = "=2.4.7", features = ["tokio"] }
tempfile = "=3.27.0"
warp = { version = "0.4", default-features = false, features = ["server"] }
