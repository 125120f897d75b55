[package]
name = "zenoh_dissector"
version = "0.1.0"
edition = "2021"
publish = false

[dependencies]
convert_case = "*"
zenoh-buffers = "*"
zenoh-codec = "*"
zenoh-protocol = "*"
zenoh-transport = { version = "*", features = ["transport_compression"] }
