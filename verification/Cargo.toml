[package]
name = "collada"
version = "0.1.0"
edition = "2021"
publish = false

[dependencies]
RustyXML = "0.3"
vecmath = "1.0"
