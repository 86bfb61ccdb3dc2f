[package]
name = "kvtree"
version = "0.1.0"
edition = "2021"
publish = false

[dependencies]
crossbeam = "*"
threadpool = "*"
