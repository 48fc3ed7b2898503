[package]
name = "vibeio_http"
version = "0.1.0"
edition = "2021"
publish = false

[dependencies]
bytes = "=1.12.1"
http = "=1.5.0"
rustc-hash = "=2.1.3"
parking_lot = "0.12"
futures-util = { version = "=0.3.34", default-features = false, features = ["std"] }
http-body = "1"
http-body-util = "0.1"
tokio = { version = "1", features = ["sync"] }
tokio-util = "0.7"
kanal = "=0.1.1"
oneshot = { version = "=0.2.1", features = ["std", "async"] }
h3 = "=0.0.8"
vibeio = "=0.2.22"
quinn = { version = "=0.11.12", default-features = false }
