[package]
name = "keyspace_search"
version = "0.1.0"
edition = "2021"
publish = false

[dependencies]
bitcoin = "0.29"
bloom = "0.3"
rand = "0.8"
num-bigint = { version = "0.4", features = ["rand"] }
num_cpus = "1"
serde = { version = "1", features = ["derive"] }
serde_json = "1"
tokio = { version = "1", features = ["rt-multi-thread", "macros"] }
