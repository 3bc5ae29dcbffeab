[package]
name = "transfer_core"
version = "0.1.0"
edition = "2021"
publish = false

[dependencies]
wgpu-types = "0.10"
wgpu-hal = "0.10"
smallvec = "1"
parking_lot = "0.11"
log = "0.4"
profiling = "1"
thiserror = "1"
