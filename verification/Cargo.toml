[package]
name = "tj_counter"
version = "0.1.0"
edition = "2021"
publish = false

[dependencies]
bytes = "0.4"
chrono = "0.4"
futures = "0.1"
hyper = "0.11"
sprintf = "*"
tokio-core = "0.1"
