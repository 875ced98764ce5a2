[package]
name = "minecrevy_io"
version = "0.1.0"
edition = "2021"
publish = false

[dependencies]
async-trait = "*"
once_cell = "*"
tokio = { version = "*", features = ["io-util"] }
