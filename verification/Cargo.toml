[package]
name = "traverse"
version = "0.1.0"
edition = "2021"
publish = false

[dependencies]
num = { version = "0.4", default-features = false }

[dev-dependencies]
quickcheck = { version = "1", default-features = false }
