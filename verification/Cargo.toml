[package]
name = "teestatus"
version = "0.3.0"
edition = "2021"
publish = false

[dependencies]
byteorder = "1"
bytes = "1"
log = "0.4"
rand = "0.8"
thiserror = "1"
