[package]
name = "bl2save"
version = "0.1.0"
edition = "2021"
publish = false

[dependencies]
bitbit = "=0.2.0"
byteorder = "=1.5.0"
crc = "=1.8.1"
hex = "=0.2.0"
minilzo = "=0.2.0"
sha1 = "=0.2.0"
