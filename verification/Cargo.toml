[package]
name = "labelrender"
version = "0.1.0"
edition = "2021"
publish = false

[dependencies]
anyhow = "1"
embedded-graphics = "0.6"
embedded-graphics-simulator = "0.2"
rusttype = "0.9"
serde = { version = "1", features = ["derive"] }
structopt = "0.3"
