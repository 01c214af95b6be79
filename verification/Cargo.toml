[package]
name = "mviz"
version = "0.1.0"
edition = "2021"
publish = false

[dependencies]
glam = { version = "=0.29.3", features = ["serde"] }
serde = { version = "=1.0.229", features = ["derive"] }
serde_json = "=1.0.154"
serde_yaml = "=0.9.34"
rosbag = "*"
