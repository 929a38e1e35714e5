[package]
name = "pdf_merge"
version = "0.1.0"
edition = "2021"
publish = false

[dependencies]
lopdf = "0.32"
