[package]
name = "flcheck"
version = "0.1.0"
edition = "2021"
publish = false

[dependencies]
futures = "0.3"
getopts = "0.2"
regex = "1"
reqwest = { version = "0.12", features = ["json"] }
serde = { version = "1", features = ["derive"] }
thiserror = "1"
tokio = { version = "1", features = ["macros", "rt-multi-thread"] }
walkdir = "2"
yaml-rust = "0.4"
