[package]
name = "chronicle"
version = "0.1.0"
edition = "2021"
publish = false

[dependencies]
mongodb = "=2.8.2"
serde = { version = "=1.0.229", features = ["derive"] }
futures = "=0.3.34"
tokio = { version = "=1.54.1", features = ["rt", "sync", "macros", "time"] }
url = "=2.5.8"
humantime = "=2.4.0"
primitive-types = "=0.12.2"
time = { version = "=0.3.55", features = ["formatting"] }
influxdb = { version = "0.5", default-features = false, features = ["reqwest-client-rustls"] }
