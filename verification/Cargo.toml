[package]
name = "blend_file_reader"
version = "0.1.0"
edition = "2021"
publish = false

[dependencies]
flate2 = "*"
zstd = "*"
serde = { version = "*", features = ["derive"] }
serde_json = "*"
clap = { version = "*", features = ["derive"] }
notify = "*"
tokio = { version = "*", features = ["sync"] }
