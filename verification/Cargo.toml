[package]
name = "klyv"
version = "0.1.0"
edition = "2021"
publish = false

[dependencies]
syn = { version = "=2.0.119", features = ["full"] }
prettyplease = { version = "=0.2.37", features = ["verbatim"] }
proc-macro2 = "=1.0.107"
quote = "=1.0.47"
clap = { version = "=4.6.7", features = ["derive"] }
log = "=0.4.34"
indexmap = "=2.14.2"
