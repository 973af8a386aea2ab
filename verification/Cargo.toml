[package]
name = "region_control"
version = "0.1.0"
edition = "2021"
publish = false

[dependencies]
moka = { version = "0.12", features = ["sync"] }
parquet = { version = "*", default-features = false }
serde = { version = "1", features = ["derive"] }
serde_json = "1"
axum = "*"
schemars = "*"
datafusion-expr = "*"
promql-parser = "*"
