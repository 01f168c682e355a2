[package]
name = "migration"
version = "0.1.0"
edition = "2021"
publish = false

[dependencies]
anyhow = "1"
async-std = { version = "1", features = ["attributes"] }
async-trait = "0.1"
clap = { version = "4", features = ["derive", "env"] }
sea-orm = { version = "0.12", default-features = false, features = ["macros"] }
sea-orm-migration = { version = "0.12", default-features = false }
tracing = "0.1"
