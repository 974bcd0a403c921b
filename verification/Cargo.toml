[package]
name = "fibonacci_circuit"
version = "0.1.0"
edition = "2021"
publish = false

[dependencies]
halo2_proofs = { version = "0.1.0", features = ["dev-graph"] }
plotters = "0.3"
