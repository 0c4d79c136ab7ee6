[package]
name = "sorted_serde_serializer"
version = "0.1.0"
edition = "2021"
publish = false

[dependencies]
itertools = "*"
serde = "1"

[dev-dependencies]
serde_json = "1"
