[package]
name = "indexer"
version = "0.1.0"
edition = "2021"
publish = false

[dependencies]
anyhow = "*"
clap = { version = "*", features = ["derive"] }
log = "*"
opendal = { version = "*", default-features = false, features = ["services-fs"] }
pretty_env_logger = "*"
roxmltree = "*"
serde = { version = "*", features = ["derive"] }
serde-roxmltree = "*"
tokio = { version = "*", features = ["macros", "rt-multi-thread"] }
