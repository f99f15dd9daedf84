[package]
name = "azap_codegen"
version = "0.1.0"
edition = "2021"
publish = false

[dependencies]
syn = { version = "2", features = ["full"] }
proc-macro2 = "1"
quote = "1"
walkdir = "2"
anyhow = "1"
