[package]
name = "postbus"
version = "0.1.0"
edition = "2021"
publish = false

[dependencies]
async-trait = "0.1"
log = "0.4"
tokio = { version = "1", features = ["net", "rt"] }

[dev-dependencies]
nom = "7"
