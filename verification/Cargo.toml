[package]
name = "ulink_zenoh"
version = "0.1.0"
edition = "2021"
publish = false

[dependencies]
rand = "=0.8.8"
zenoh = { version = "=0.11.0", features = ["unstable"] }
async-trait = "=0.1.92"

[dev-dependencies]
prost = "=0.12.6"
