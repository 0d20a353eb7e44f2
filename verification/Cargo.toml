[package]
name = "ssa_graph"
version = "0.1.0"
edition = "2021"
publish = false

[dependencies]
cranelift = "0.132"
cranelift-jit = "0.132"
cranelift-module = "0.132"
cranelift-native = "0.132"
simple_logger = "=5.2.0"
