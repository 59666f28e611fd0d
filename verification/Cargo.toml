[package]
name = "dos-actors"
version = "0.1.0"
edition = "2021"
publish = false

[dependencies]
flume = "0.10"
futures = "0.3"
tokio = { version = "1", features = ["rt", "rt-multi-thread", "macros", "sync"] }
async-trait = "0.1"
thiserror = "1"
log = "0.4"
rand = "0.8"
rand_distr = "0.4"
linya = "*"
