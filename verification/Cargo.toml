[package]
name = "cozo"
version = "0.1.0"
edition = "2021"
publish = false

[dependencies]
log = "=0.4.34"
miette = "=5.10.0"
rmp-serde = "=1.3.1"
serde = { version = "=1.0.229", features = ["derive"] }
serde_json = "=1.0.154"
smartstring = "1"
thiserror = "=1.0.69"
