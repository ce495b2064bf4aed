[package]
name = "tl_fantasy"
version = "0.1.0"
edition = "2021"
publish = false

[dependencies]
case = "*"
regex = "*"
text-reader = "*"
rstring-builder = "*"
tera = { version = "1", default-features = false }
serde = { version = "1", features = ["derive"] }
serde_json = "1"
toml = "*"
log = "0.4"
simple_logger = "*"
colored = "*"
toolkit = "*"
