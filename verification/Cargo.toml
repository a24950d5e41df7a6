[package]
name = "substreams_sink_prometheus"
version = "0.1.0"
edition = "2021"
publish = false

[dependencies]
prost = "*"
