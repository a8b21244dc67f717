[package]
name = "kbinxml"
version = "0.1.0"
edition = "2021"
publish = false

[dependencies]
byteorder = "=1.5.0"
bytes = "1"
encoding_rs = "=0.8.42"
indexmap = "=2.14.2"
quick-xml = "=0.42.0"
rustc-hex = "=2.1.0"
serde = "=1.0.229"
