[package]
name = "text_nodes"
version = "0.1.0"
edition = "2021"
publish = false

[dependencies]
convert_case = "0.8"
glam = "*"
parley = "*"
serde = { version = "1", features = ["derive"] }
serde_json = "1"
skrifa = "*"
titlecase = "3"
unicode-segmentation = "1"
