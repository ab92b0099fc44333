[package]
name = "altius_core"
version = "0.1.0"
edition = "2021"
publish = false

[dependencies]
id-arena = "2.2"
rustc-hash = "1.1"
rand = "0.8"
threadpool = "1.8"
thread_local = "1.1"
core_affinity = "0.8"
opencl3 = "*"
