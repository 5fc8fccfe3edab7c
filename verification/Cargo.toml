[package]
name = "dab"
version = "0.1.0"
edition = "2021"
publish = false

[dependencies]
zip = { version = "*", default-features = false, features = ["deflate"] }
anyhow = "1"
clap = { version = "4", features = ["derive"] }
colored = "2"
ctrlc = "3"
inquire = "*"
which = "*"
