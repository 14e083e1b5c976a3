[package]
name = "rbx_xml"
version = "0.1.0"
edition = "2021"
publish = false

[dependencies]
base64 = "0.10"
rbx_dom_weak = "1"
rbx_reflection = "3"
serde = "1"
serde_derive = "1"
serde_json = "1"
tempfile = "3"
xml-rs = "0.8"
