[package]
name = "crossref_rs"
version = "0.2.0"
edition = "2021"
publish = false

[dependencies]
crossref = "*"
serde_bibtex = "*"
serde = { version = "1", features = ["derive"] }
serde_json = "1"
chrono = "0.4"
dirs = "*"
confy = "*"
reqwest = { version = "*", default-features = false, features = ["json", "rustls-tls"] }
tokio = { version = "1", features = ["rt-multi-thread", "macros"] }
thiserror = "*"
colored = "*"
walkdir = "2"
clap = { version = "4", features = ["derive", "env"] }
derive_builder = "*"
