[package]
name = "chuk_robot_benches"
version = "0.1.0"
edition = "2021"
publish = false

[dependencies]
sha2 = "0.10"
serde = { version = "1", features = ["derive"] }
serde_json = "1"
rapier2d-f64 = "0.22"
