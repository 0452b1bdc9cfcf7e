[package]
name = "polycirc"
version = "0.1.0"
edition = "2021"
publish = false

[dependencies]
rand = "*"
serde = { version = "*", features = ["derive"] }
serde_json = "*"
open-hypergraphs = "*"
open-hypergraphs-dot = "*"
graphviz-rust = "*"
