[package]
name = "boxferry_quadlet"
version = "0.1.0"
edition = "2021"
publish = false

[dependencies]
quadlet-lens = "=0.2.4"
serde_json = "=1.0.154"
