[package]
name = "hypr-recall"
version = "0.1.0"
edition = "2021"
publish = false

[dependencies]
anyhow = "1"
clap = { version = "4", features = ["derive"] }
gdk-pixbuf = "*"
gtk4 = "*"
gtk4-layer-shell = "*"
serde = { version = "1", features = ["derive"] }
serde_json = "1"
tokio = { version = "1", features = ["rt-multi-thread", "macros", "process", "net", "io-util", "time", "sync"] }
toml = "*"
