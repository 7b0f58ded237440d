[package]
name = "dbo_csv"
version = "0.1.0"
edition = "2021"
publish = false

[dependencies]
anyhow = "*"
chrono = "*"
encoding_rs = "*"
