[package]
name = "mssql_odbc"
version = "0.1.0"
edition = "2021"
publish = false

[dependencies]
tokio = { version = "1", features = ["rt-multi-thread"] }
tracing = "0.1"
uuid = "1"
