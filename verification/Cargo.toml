[package]
name = "kql_converter"
version = "0.1.0"
edition = "2021"

[dependencies]
clap = { version = "4", features = ["derive"] }
miette = "5"
thiserror = "1"
