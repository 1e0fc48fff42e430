[package]
name = "artistpath_core"
version = "0.1.0"
edition = "2021"
publish = false

[dependencies]
byteorder = "1"
rustc-hash = "2"
unidecode = "0.3"
uuid = { version = "1", features = ["v4"] }
memmap2 = "0.9"
serde = { version = "1", features = ["derive"] }
serde_json = "1"
clap = { version = "4", features = ["derive"] }
colored = "2"
