[package]
name = "pool_scan"
version = "0.1.0"
edition = "2021"
publish = false

[dependencies]
csv = "*"
dotenv = "*"
serde = { version = "*", features = ["derive"] }
tokio = { version = "*", features = ["macros", "rt-multi-thread"] }
web3 = { version = "*", default-features = false, features = ["ws-tokio"] }
