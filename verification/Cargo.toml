[package]
name = "price_watch"
version = "0.1.0"
edition = "2021"
publish = false

[dependencies]
anyhow = "=1.0.104"
chrono = "=0.4.45"
clap = { version = "=4.6.7", features = ["derive"] }
redis = "=1.7.1"
reqwest = "=0.13.5"
serde = { version = "=1.0.229", features = ["derive"] }
serde_yaml = "=0.9.34"
# Not used directly: pins teloxide's transitive takecell below 0.1.2,
# whose minimum rustc is newer than the toolchain here.
takecell = "=0.1.1"
teloxide = "=0.17.0"
tokio = { version = "=1.53.2", features = ["macros", "rt-multi-thread", "time"] }
