[package]
name = "rust_wc"
version = "0.1.0"
edition = "2021"
publish = false

[dependencies]
bytecount = "*"
docopt = "*"
serde = { version = "1", features = ["derive"] }
serde_derive = "1"
