[package]
name = "rkyv_codec"
version = "0.5.0"
edition = "2021"
publish = false

[dependencies]
asynchronous-codec = "0.7"
bytes = "1.10"
futures = "0.3"
rkyv = "0.8"
thiserror = "2"
unsigned-varint = "0.8"
