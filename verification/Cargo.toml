[package]
name = "engine"
version = "0.1.0"
edition = "2021"
publish = false

[dependencies]
futures-util = "0.3"
rand = "0.8"
rand_chacha = "0.3"
rand_distr = "0.4"
serde = { version = "1", features = ["derive"] }
serde_json = "1"
tokio = { version = "1", features = ["macros", "rt-multi-thread", "sync", "time"] }
warp = "0.3"
