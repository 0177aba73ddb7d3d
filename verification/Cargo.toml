[package]
name = "polymorph"
version = "0.1.0"
edition = "2021"
publish = false

[dependencies]
miniz_oxide = "*"
md5 = "*"
clap = { version = "*", features = ["derive"] }
tokio = { version = "*", features = ["macros", "rt-multi-thread", "fs"] }
env_logger = "*"
reqwest = { version = "*", default-features = false }
