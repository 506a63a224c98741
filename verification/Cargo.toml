[package]
name = "downup"
version = "0.1.0"
edition = "2021"
publish = false

[dependencies]
bytesize = "1"
parse_duration = "2"
chrono = "0.4"
net2 = "0.2"
toml = "0.5"
serde = "1"
serde_derive = "1"
tokio = { version = "1", default-features = false, features = ["net", "io-util"] }
