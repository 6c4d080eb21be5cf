[package]
name = "flexim"
version = "0.1.0"
edition = "2021"
publish = false

[dependencies]
rand = "=0.8.8"
chrono = { version = "=0.4.45", default-features = false, features = ["clock", "std"] }
image = { version = "=0.24.9", default-features = false, features = ["png"] }
polars = { version = "=0.45.1", default-features = false, features = ["ipc", "serde", "dtype-struct"] }
ndarray = { version = "=0.15.6", features = ["serde"] }
serde = { version = "=1.0.229", features = ["derive"] }
serde_json = "=1.0.154"
bincode = "=1.3.3"
