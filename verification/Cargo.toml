[package]
name = "halo_api"
version = "0.1.0"
edition = "2021"
publish = false

[dependencies]
flate2 = "=1.1.10"
chrono = { version = "=0.4.45", features = ["serde"] }
serde = { version = "=1.0.229", features = ["derive"] }
serde_json = "=1.0.154"
thiserror = "=2.0.21"
async-trait = "=0.1.92"
tokio = { version = "=1.54.1", features = ["sync", "time", "macros", "rt"] }
reqwest = { version = "=0.13.5", default-features = false, features = ["json"] }
