[package]
name = "auto_import"
version = "0.1.0"
edition = "2021"
publish = false

[dependencies]
serde = { version = "*", features = ["derive"] }
serde_json = "*"
swc_core = { version = "*", features = ["common", "ecma_ast", "ecma_visit", "ecma_codegen"] }
