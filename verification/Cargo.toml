[package]
name = "prf_core"
version = "0.1.0"
edition = "2021"
publish = false

[dependencies]
snarkvm-console-algorithms = "=4.11.0"
snarkvm-console-network-environment = "=4.11.0"
snarkvm-console-types = "=4.11.0"
snarkvm-utilities = "=4.11.0"
