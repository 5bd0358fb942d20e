[package]
name = "beamr"
version = "0.1.0"
edition = "2021"
publish = false

[dependencies]
cranelift-codegen = "=0.128.4"
cranelift-frontend = "=0.128.4"
cranelift-jit = "=0.128.4"
cranelift-module = "=0.128.4"
cranelift-native = "=0.128.4"
crossbeam-queue = "=0.3.14"
dashmap = "=6.2.1"
flate2 = "=1.1.10"
zstd = "=0.13.4"
