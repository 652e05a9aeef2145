[package]
name = "geoengine_kernel"
version = "0.1.0"
edition = "2021"
publish = false

[dependencies]
async-trait = "=0.1.92"
chrono = "=0.4.45"
futures = "=0.3.34"
gdal = "=0.16.0"
gdal-sys = "=0.9.1"
log = "=0.4.35"
ndarray = "=0.15.6"
numpy = "=0.20.0"
proc-macro2 = { version = "=1.0.107", default-features = false }
pyo3 = { version = "=0.20.3", features = ["abi3-py38"] }
quote = { version = "=1.0.47", default-features = false }
reqwest = { version = "=0.11.27", default-features = false, features = ["json"] }
serde = { version = "=1.0.229", features = ["derive"] }
serde_json = "=1.0.154"
snafu = "=0.7.5"
syn = { version = "=2.0.119", default-features = false, features = ["clone-impls", "derive", "full", "parsing", "printing"] }
tokio = { version = "=1.54.1", features = ["rt-multi-thread", "fs"] }
tokio-postgres = "=0.7.18"
unicode-ident = "=1.0.27"
