[package]
name = "m3d"
version = "0.1.0"
edition = "2021"
publish = false

[dependencies]
byteorder = "1"
serde = { version = "1", features = ["derive"] }
ron = "0.8"
getopts = "0.2"
png = "0.15"
