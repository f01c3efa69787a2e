[package]
name = "rdme_sim"
version = "0.1.0"
edition = "2021"
publish = false

[dependencies]
rand = "0.8"
serde_json = "1"
wgpu = "0.19"
bytemuck = { version = "1", features = ["derive"] }
pollster = "0.3"
futures-intrusive = "0.5"
