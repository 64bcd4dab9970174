[package]
name = "capnp_dynamic"
version = "0.1.0"
edition = "2021"
publish = false

[dependencies]
capnp = "*"
capnpc = "*"
itertools = "*"
owning_ref = "*"
pyo3 = "*"
