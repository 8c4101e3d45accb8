[package]
name = "canvas_exchange"
version = "0.1.0"
edition = "2021"
publish = false

[dependencies]
hex = "*"
ree-types = "*"
ic-cdk = "*"
ic-cdk-macros = "*"
ic-stable-structures = "*"
candid = "*"
ciborium = "*"
serde = { version = "*", features = ["derive"] }
thiserror = "*"
