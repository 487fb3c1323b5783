[package]
name = "svc_registry"
version = "0.1.0"
edition = "2021"
publish = false

[dependencies]
async-std = "*"
crossbeam = "*"
actix-web = { version = "*", default-features = false }
futures = "*"
libc = "*"
reqwest = { version = "*", default-features = false, features = ["blocking"] }
signal-hook = "*"
