[package]
name = "ferreline"
version = "0.1.0"
edition = "2021"
publish = false

[dependencies]
dotnet-io-binary = "=0.1.0-alpha.9"
