[package]
name = "xml_to_serde"
version = "0.1.0"
edition = "2021"
publish = false

[dependencies]
chrono = "0.4"
url = "2"
Inflector = "0.11"
xml-rs = "0.8"
serde-xml-rs = "0.5"
