[package]
name = "ppm_leader"
version = "0.1.0"
edition = "2021"
publish = false

[dependencies]
prio = "0.6"
hpke = "0.10"
rand = "0.8"
serde = { version = "1", features = ["derive"] }
serde_json = "1"
thiserror = "1"
http = "0.2"
http-api-problem = "0.50"
reqwest = { version = "0.11", default-features = false, features = ["json"] }
tokio = { version = "1", features = ["rt-multi-thread", "macros", "sync"] }
warp = { version = "0.3", default-features = false }
