[package]
name = "ggrs"
version = "0.1.0"
edition = "2021"
publish = false

[dependencies]
bitfield-rle = "=0.2.1"
bincode = "=1.3.3"
serde = { version = "=1.0.229", features = ["derive"] }
thiserror = "=1.0.69"
adler = "=1.0.2"
rand = "0.8"
