[package]
name = "diagweave"
version = "0.1.0"
edition = "2021"
publish = false

[dependencies]
ref_str = "*"
serde = { version = "1", features = ["derive"] }
serde_json = "1"
syn = { version = "2", features = ["full", "visit-mut"] }
quote = "1"
proc-macro2 = "1"
tracing = "0.1"
opentelemetry = { version = "*", features = ["logs", "trace"] }
