[package]
name = "clojure_core"
version = "0.1.0"
edition = "2021"
publish = false

[dependencies]
fxhash = "0.2"
pyo3 = "*"
dashmap = "*"
once_cell = "1"
