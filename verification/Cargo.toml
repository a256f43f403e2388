[package]
name = "codetracer-flow-recorder"
version = "0.1.0"
edition = "2021"
publish = false

[dependencies]
clap = { version = "4", features = ["derive"] }
eyre = "0.6"
serde = { version = "1", features = ["derive"] }
serde_json = "1"
codetracer_trace_types = "0.16.3"
codetracer_trace_writer = "0.17.3"
