[package]
name = "smoqs"
version = "0.1.0"
edition = "2021"
publish = false

[dependencies]
chrono = "0.4"
env_logger = "0.8"
log = "0.4"
md-5 = "0.10"
structopt = "0.3"
thiserror = "1"
tokio = { version = "1", features = ["macros", "net", "rt-multi-thread", "sync", "time"] }
uuid = { version = "1", features = ["v4"] }
warp = { version = "0.3", default-features = false }
