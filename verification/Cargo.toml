[package]
name = "copy_circuit"
version = "0.1.0"
edition = "2021"
publish = false

[dependencies]
halo2-axiom = "=0.5.3"
