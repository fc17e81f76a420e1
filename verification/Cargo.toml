[package]
name = "rsxtree"
version = "0.1.0"
edition = "2021"
publish = false

[dependencies]
chrono = "*"
clap = "*"
colored = "*"
git2 = "*"
tokio = { version = "*", features = ["fs", "rt-multi-thread", "macros"] }
async-recursion = "*"

[dev-dependencies]
serde_json = "*"
