[package]
name = "box_planner_core"
version = "0.1.0"
edition = "2021"
publish = false

[dependencies]
csv = "1"
iced = { version = "0.12", default-features = false }
serde = { version = "1", features = ["derive"] }
serde_json = "1"
