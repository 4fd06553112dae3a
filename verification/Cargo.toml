[package]
name = "vegas"
version = "0.1.0"
edition = "2021"
publish = false

[dependencies]
rand = "*"
rand_pcg = "*"
vegas-lattice = "*"
serde = { version = "*", features = ["derive"] }
toml = "*"
clap = { version = "*", features = ["derive"] }
thiserror = "*"
arrow = "*"
parquet = "*"
