[package]
name = "inquirynet"
version = "0.1.0"
edition = "2021"
publish = false

[dependencies]
rand = "=0.3.23"
rmp = "=0.8.15"
rmp-serialize = "*"
rustc-serialize = "=0.3.25"
time = "=0.1.45"
