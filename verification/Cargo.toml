[package]
name = "poxbase"
version = "0.1.0"
edition = "2021"
publish = false

[dependencies]
arrayvec = { version = "0.7", features = ["serde"] }
regex = "1"
rustc-hash = "2"
tiny-keccak = { version = "2", features = ["keccak"] }
actix-web = "4"
anyhow = "1"
clap = { version = "4", features = ["derive"] }
futures = "0.3"
futures-util = "0.3"
log = "0.4"
reqwest = { version = "0.12", features = ["stream"] }
serde = { version = "1", features = ["derive"] }
serde_json = "1"
serde_repr = "0.1"
simple_logger = "4"
thiserror = "1"
