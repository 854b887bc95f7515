[package]
name = "kanjikoto"
version = "0.1.0"
edition = "2021"
publish = false

[dependencies]
rand = "=0.9.5"
rand_chacha = "=0.9.0"
rusqlite = { version = "=0.40.2", features = ["bundled"] }
csv = "=1.4.0"
serde = { version = "=1.0.229", features = ["derive"] }
thiserror = "=2.0.21"
reqwest = { version = "=0.13.5", default-features = false, features = ["blocking"] }
