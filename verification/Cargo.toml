[package]
name = "odoo_features"
version = "0.1.0"
edition = "2021"
publish = false

[dependencies]
lsp-types = "*"
roxmltree = "*"
serde = { version = "1", features = ["derive"] }
