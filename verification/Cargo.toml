[package]
name = "audio_catalog"
version = "0.1.0"
edition = "2021"
publish = false

[dependencies]
sha2 = "*"
rand = "*"
chrono = "*"
jwalk = "*"
lofty = "*"
log = "*"
tokio = { version = "*", features = ["rt-multi-thread", "macros"] }
sqlx = { version = "*", default-features = false, features = ["runtime-tokio", "sqlite"] }
