[package]
name = "monitrust"
version = "0.1.0"
edition = "2021"
publish = false

[dependencies]
anyhow = "=1.0.104"
lettre = { version = "=0.11.23", default-features = false, features = ["builder", "sendmail-transport"] }
serde = { version = "=1.0.229", features = ["derive"] }
serde_json = "=1.0.154"
serde_with = "=3.24.0"
# Held back for teloxide-core, which asks for takecell 0.1: takecell 0.1.2
# needs rustc 1.96, newer than the toolchain that builds this crate.
takecell = "=0.1.1"
teloxide = { version = "=0.17.0", default-features = false, features = ["rustls"] }
tokio = { version = "=1.54.1", features = ["rt-multi-thread"] }
tracing = "=0.1.44"
tracing-subscriber = "=0.3.23"
