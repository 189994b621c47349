[package]
name = "node_manager"
version = "0.1.0"
edition = "2021"
publish = false

[dependencies]
byteorder = "=1.5.0"
bytes = "1"
cita-types = "=0.1.2"
crossbeam-channel = "=0.3.9"
fnv = "=1.0.7"
notify = "=4.0.18"
openssl = "=0.10.82"
rand = "=0.5.6"
tentacle = { version = "=0.7.7", default-features = false, features = ["tokio-runtime", "tokio-timer"] }
tiny-keccak = "=1.5.0"
tokio-util = "=0.7.13"
uuid = { version = "=0.7.4", features = ["v4"] }
