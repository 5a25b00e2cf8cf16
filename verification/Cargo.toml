[package]
name = "happ"
version = "0.1.0"
edition = "2021"
publish = false

[dependencies]
clap = "2"
proc-macro2 = { version = "1", features = ["span-locations"] }
syn = { version = "1", features = ["full"] }
walkdir = "2"
