[package]
name = "ic_replica_core"
version = "0.1.0"
edition = "2021"
publish = false

[dependencies]
thrift = "0.13"
bitcoin = "0.28"
serde = { version = "1", features = ["derive"] }
clap = { version = "3", features = ["derive"] }
