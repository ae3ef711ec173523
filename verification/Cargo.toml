[package]
name = "elasticlab"
version = "0.1.0"
edition = "2021"
publish = false

[dependencies]
dirs = "5"
rpassword = "5"
serde = { version = "1", features = ["derive"] }
serde_json = "1"
structopt = "0.3"
