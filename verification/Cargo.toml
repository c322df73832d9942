[package]
name = "ezipr"
version = "0.1.0"
edition = "2021"
publish = false

[dependencies]
crc32fast = "1"
miniz_oxide = "*"
clap = { version = "4", features = ["derive"] }
png = "*"
gif = "*"
serde = { version = "1", features = ["derive"] }
toml = "*"
thiserror = "*"
