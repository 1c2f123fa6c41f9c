[package]
name = "supabar"
version = "0.1.0"
edition = "2021"
publish = false

[dependencies]
uuid = { version = "=1.29.0", features = ["v4"] }
whoami = "=1.6.1"
blake2b_simd = "=1.0.5"
regex = "=1.13.1"
serde = { version = "=1.0.229", features = ["derive"] }
toml = "=0.8.23"
walkdir = "=2.5.0"
home = "=0.5.12"
standard_paths = "=2.1.0"
rustyline = "=10.1.1"
rustyline-derive = "=0.7.0"
tokio = { version = "=1.54.1", features = ["full"] }
anyhow = "=1.0.104"
tracing = "=0.1.44"
tracing-subscriber = "=0.3.23"
lopdf = { version = "=0.46.0", default-features = false }
jwalk = "=0.8.1"
once_cell = "=1.21.4"
lazy_static = "=1.5.1"
gio = "=0.22.10"
