[package]
name = "avm_core"
version = "0.1.0"
edition = "2021"
publish = false

[dependencies]
byteorder = "=1.5.0"
flash-lso = "=0.7.0"
generational-arena = "0.2"
json = "=0.12.4"
rand = "=0.8.8"
url = "=2.5.8"
