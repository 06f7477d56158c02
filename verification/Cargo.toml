[package]
name = "ortex"
version = "0.1.0"
edition = "2021"
publish = false

[dependencies]
half = "=2.7.1"
ndarray = "=0.17.2"
ort = { version = "=2.0.0-rc.12", default-features = false, features = ["api-22", "half", "load-dynamic", "ndarray", "std"] }
rustler = "=0.39.0"
tracing-subscriber = { version = "=0.3.23", features = ["env-filter"] }
