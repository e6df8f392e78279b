[package]
name = "no_useless_path_segments"
version = "0.1.0"
edition = "2021"
publish = false

[dependencies]
oxc_ast = "=0.143.0"
oxc_diagnostics = "=0.143.0"
oxc_span = "=0.143.0"
schemars = "1"
serde = { version = "1", features = ["derive"] }
serde_json = "1"
