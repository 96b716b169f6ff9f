[package]
name = "zk_training"
version = "0.1.0"
edition = "2021"
publish = false

[dependencies]
anyhow = "1"
candle-core = "*"
candle-datasets = "*"
candle-nn = "*"
clap = { version = "4", features = ["derive"] }
image = { version = "*", default-features = false, features = ["png"] }
indicatif = "*"
log = "0.4"
parquet = { version = "*", default-features = false }
sp1-zkvm = "=4.2.1"
