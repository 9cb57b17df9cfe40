[package]
name = "human_friendly_ids"
version = "0.1.0"
edition = "2021"
publish = false

[dependencies]
rand = "*"
serde = "*"
