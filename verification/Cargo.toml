[package]
name = "pi_animation"
version = "0.1.0"
edition = "2021"
publish = false

[dependencies]
pi_hash = "*"
pi_slotmap = "*"
serde = { version = "1", features = ["derive"] }
