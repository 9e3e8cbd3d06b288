[package]
name = "raggust"
version = "0.1.0"
edition = "2021"
publish = false

[dependencies]
epub = "*"
libsql = { version = "*", default-features = false, features = ["core"] }
reqwest = { version = "*", features = ["json"] }
serde = { version = "1", features = ["derive"] }
serde_json = "1"
tl = "*"
tokio = { version = "1", features = ["macros", "rt-multi-thread", "io-std"] }
