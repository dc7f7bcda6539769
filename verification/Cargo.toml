[package]
name = "img4schemaorg"
version = "0.1.0"
edition = "2021"
publish = false

[dependencies]
url = "2"
redis = "*"
jsonrpc-http-server = "18"
