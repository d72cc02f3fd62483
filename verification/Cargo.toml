[package]
name = "circom_core"
version = "0.1.0"
edition = "2021"
publish = false

[dependencies]
num-bigint-dig = "*"
