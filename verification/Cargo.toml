[package]
name = "zarr-lint-core"
version = "0.0.1"
edition = "2021"
publish = false

[dependencies]
serde_json = "1"
serde = { version = "1", features = ["derive"] }
thiserror = "2"
walkdir = "2"
ureq = "3"
url = "2"
clap = { version = "4", features = ["derive"] }
object_store = { version = "*", features = ["aws", "gcp", "azure"] }
tokio = { version = "1", features = ["rt-multi-thread"] }
futures = "0.3"
