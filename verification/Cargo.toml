[package]
name = "tinyruntime-python"
version = "0.1.0"
edition = "2021"
publish = false

[dependencies]
reqwest = { version = "0.12", default-features = false, features = ["json"] }
serde = { version = "1", features = ["derive"] }
thiserror = "2"
tokio = { version = "1", features = ["process", "time", "rt", "macros"] }
tracing = "0.1"

[dev-dependencies]
tempfile = "3"
