[package]
name = "rustw"
version = "0.1.0"
edition = "2021"
publish = false

[dependencies]
cargo_metadata = "=0.5.8"
hyper = "=0.10.16"
rls-analysis = { version = "=0.18.3", default-features = false }
rls-blacklist = "=0.1.3"
rls-span = { version = "=0.5.4", default-features = false }
rls-vfs = { version = "=0.8.0", default-features = false }
serde = { version = "=1.0.229", features = ["derive"] }
serde_json = "=1.0.154"
url = "=0.5.10"
