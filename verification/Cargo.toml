[package]
name = "sandstone"
version = "0.1.0"
edition = "2021"
publish = false

[dependencies]
serde = { version = "1", features = ["derive"] }
postcard = { version = "1", features = ["alloc"] }
hashbrown = { version = "*", features = ["serde"] }
rustc-hash = "*"
