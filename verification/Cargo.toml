[package]
name = "rustwebserver"
version = "0.1.0"
edition = "2021"
publish = false

[dependencies]
log = "0.4"
num_cpus = "1"
scoped_threadpool = "0.1"
thiserror = "1"
