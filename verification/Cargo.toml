[package]
name = "pax"
version = "0.4.0"
edition = "2021"
publish = false

[dependencies]
base64 = "*"
crossbeam = "*"
esparse = "*"
memchr = "*"
notify = "*"
num_cpus = "*"
regex = "*"
serde_json = "*"
