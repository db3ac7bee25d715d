[package]
name = "pdf-mcp"
version = "0.1.0"
edition = "2021"
publish = false

[dependencies]
base64 = "0.22"
image = { version = "0.25", default-features = false, features = ["jpeg", "png"] }
mupdf = "*"
serde_json = "1"
