[package]
name = "fila_core"
version = "0.1.0"
edition = "2021"
publish = false

[dependencies]
crc32fast = "1"
uuid = { version = "1", features = ["v4", "v7"] }
serde = { version = "1", features = ["derive"] }
serde_json = "1"
bytes = "1"
tokio-util = { version = "0.7", features = ["codec"] }
mlua = { version = "0.10", features = ["lua54", "vendored"] }
