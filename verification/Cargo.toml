[package]
name = "smec"
version = "0.1.0"
edition = "2021"
publish = false

[dependencies]
hashbrown = "*"
hibitset = { version = "*", default-features = false }
slab = { version = "*", features = ["serde"] }
paste = "*"
serde = { version = "1", features = ["derive"] }
