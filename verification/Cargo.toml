[package]
name = "zkp_course"
version = "0.1.0"
edition = "2021"
publish = false

[dependencies]
hex = "0.4"
num-bigint = { version = "0.4", features = ["rand"] }
num-traits = "0.2"
prost = "0.11"
rand = "0.8"
tokio = { version = "1", features = ["macros", "rt-multi-thread"] }
tonic = "0.9"
