[package]
name = "japari_librarian"
version = "1.0.0"
edition = "2021"
publish = false

[dependencies]
clap = "*"
log = "*"
reqwest = { version = "*", default-features = false, features = ["blocking", "json", "rustls-tls"] }
serde = { version = "*", features = ["derive"] }
serde_json = "*"
simplelog = "*"
