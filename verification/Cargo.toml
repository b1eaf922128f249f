[package]
name = "freemarker"
version = "0.1.0"
edition = "2021"
publish = false

[dependencies]
unicode-normalization = "0.1"
encoding_rs = "0.8"
chrono = "0.4"
chrono-tz = "0.10"
serde_json = "1"
indexmap = "2"
bigdecimal = "0.4"
num-bigint = "0.4"
