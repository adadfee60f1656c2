[package]
name = "trace_context"
version = "0.1.0"
edition = "2021"
publish = false

[dependencies]
opentelemetry = "*"
opentelemetry_sdk = "*"
opentelemetry-semantic-conventions = { version = "*", features = ["semconv_experimental"] }
