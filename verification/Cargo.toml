[package]
name = "vcd_coverage"
version = "0.1.0"
edition = "2021"
publish = false

[dependencies]
clap = { version = "*", features = ["derive"] }
colored = "*"
futures = "*"
lazy_static = "*"
spinners = "*"
