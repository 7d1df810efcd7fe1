[package]
name = "mcproxy"
version = "0.1.0"
edition = "2021"
publish = false

[dependencies]
flate2 = "=1.1.10"
md5 = "=0.8.1"
sha1 = "=0.11.0"
rsa = "=0.9.10"
rsa-der = "=0.3.0"
num-bigint-dig = "=0.8.6"
rand = "=0.8.8"
serde_json = "=1.0.151"
tokio = { version = "=1.53.2", features = ["full"] }
reqwest = { version = "=0.13.5", default-features = false, features = ["query"] }
