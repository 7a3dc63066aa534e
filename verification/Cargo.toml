[package]
name = "dms_name_matching"
version = "0.1.0"
edition = "2021"
publish = false

[dependencies]
chrono = "0.4"
md5 = "0.7"
unicode-normalization = "0.1"
strsim = "0.11"
num_cpus = "1"
rayon = "1"
serde = { version = "1", features = ["derive"] }
serde_json = "1"
csv = "1"
crossbeam-channel = "0.5"
anyhow = "1"
mysql = "*"
