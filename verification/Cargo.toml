[package]
name = "onep"
version = "0.1.0"
edition = "2021"
publish = false

[dependencies]
hmac = "*"
sha1 = "*"
sha2 = "*"
libreauth = "*"
anyhow = "*"
clap = { version = "*", features = ["derive"] }
colored = "*"
serde = { version = "*", features = ["derive"] }
serde_json = "*"
term-table = "*"
thiserror = "*"
tokio = { version = "*", features = ["macros", "rt", "process"] }
