[package]
name = "local_approvals"
version = "0.1.0"
edition = "2021"
publish = false

[dependencies]
rmcp = { version = "*", default-features = false }
serde = { version = "1", features = ["derive"] }
serde_json = { version = "1", features = ["preserve_order"] }
sha1 = "0.10"
tempfile = "3"
tracing = "0.1"
uuid = { version = "1", features = ["v5"] }
