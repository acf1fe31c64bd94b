[package]
name = "acf_workshop"
version = "0.1.0"
edition = "2021"
publish = false

[dependencies]
clap = { version = "4", features = ["derive", "env"] }
rand = "0.8"
rayon = "1"
reqwest = { version = "0.11", default-features = false, features = ["gzip", "json", "rustls-tls"] }
serde = { version = "1", features = ["derive"] }
serde_json = "1"
tl = "0.7"
tokio = { version = "1", features = ["macros", "rt-multi-thread", "time"] }
