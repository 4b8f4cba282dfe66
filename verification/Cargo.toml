[package]
name = "entity_cache"
version = "0.1.0"
edition = "2021"
publish = false

[dependencies]
apollo-compiler = "=1.33.1"
crossbeam-channel = "0.5"
diff = "0.1"
sha2 = "=0.10.9"
hex = "=0.4.3"
http = "=1.5.0"
serde = { version = "=1.0.229", features = ["derive"] }
serde_json = "=1.0.154"
serde_json_bytes = "=0.2.6"
tokio = { version = "=1.54.1", features = ["sync", "rt"] }
tower = { version = "=0.4.13", default-features = false }
tracing = "=0.1.44"
