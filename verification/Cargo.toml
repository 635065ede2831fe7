[package]
name = "excelookup"
version = "0.1.0"
edition = "2021"
publish = false

[dependencies]
foldhash = "*"
calamine = "*"
rust_xlsxwriter = { version = "*", features = ["constant_memory"] }
anyhow = "*"
