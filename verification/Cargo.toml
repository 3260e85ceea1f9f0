[package]
name = "data_syncer"
version = "0.1.0"
edition = "2021"
publish = false

[dependencies]
calamine = "0.19"
chrono = "0.4"
console = "0.15"
glob = "0.3"
threadpool = "1.8"
