[package]
name = "elasticlean"
version = "0.1.0"
edition = "2021"
publish = false

[dependencies]
chrono = "0.4"
serde = { version = "1", features = ["derive"] }
serde_json = "1"
structopt = "0.3"
reqwest = { version = "0.12", default-features = false, features = ["blocking", "json"] }
