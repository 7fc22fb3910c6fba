[package]
name = "lights"
version = "0.1.0"
edition = "2021"
publish = false

[dependencies]
arrayvec = "0.7"
futures = "0.3"
pin-project = "1"
nikisas = "*"
crossterm = "0.19"
smol = "1"
surf = { version = "2", default-features = false, features = ["h1-client"] }
wasmer-runtime = "1.0.1"
