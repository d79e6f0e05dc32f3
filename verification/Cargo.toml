[package]
name = "efficiency_benchmark"
version = "0.1.0"
edition = "2021"
publish = false

[dependencies]
battery = "*"
chrono = "*"
colored = "*"
