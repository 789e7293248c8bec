[package]
name = "armature_files"
version = "0.1.0"
edition = "2021"
publish = false

[dependencies]
bytes = "=1.12.1"
lopdf = { version = "0.39", default-features = false }
mime_guess = "=2.0.5"
serde = { version = "=1.0.229", features = ["derive"] }
tempfile = "=3.27.0"
thiserror = "=2.0.21"
tokio = { version = "=1.54.1", features = ["fs", "rt"] }
zip = { version = "=8.6.0", default-features = false, features = ["deflate"] }
