[package]
name = "repoutil"
version = "0.1.0"
edition = "2021"
publish = false

[dependencies]
anstream = "0.6"
anyhow = "1"
clap = { version = "4", features = ["derive"] }
rayon = "1"
serde_json = "1"
