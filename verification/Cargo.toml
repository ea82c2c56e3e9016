[package]
name = "lennox_ir"
version = "0.1.0"
edition = "2021"
publish = false

[dependencies]
anyhow = "1"
base64 = "0.13"
bytes = "1"
clap = { version = "3", features = ["derive"] }
hex = "0.4"
irp = "*"
rbroadlink = "*"
serde = { version = "1", features = ["derive"] }
serde_json = "1"
strum = { version = "0.24", features = ["derive"] }
thiserror = "1"
