[package]
name = "template_nest"
version = "0.1.0"
edition = "2021"
publish = false

[dependencies]
html-escape = "*"
serde_json = "*"
thiserror = "*"
walkdir = "*"

[dev-dependencies]
regex = "*"
