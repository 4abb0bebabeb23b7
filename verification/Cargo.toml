[package]
name = "csv_transformer"
version = "0.1.0"
edition = "2021"
publish = false

[dependencies]
polars = { version = "*", features = ["lazy", "csv"] }
serde = { version = "*", features = ["derive"] }
serde_json = "*"
thiserror = "*"
tokio = { version = "*", features = ["rt-multi-thread", "macros"] }
