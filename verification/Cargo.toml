[package]
name = "batch_vm"
version = "0.1.0"
edition = "2021"
publish = false

[dependencies]
circuit_sequencer_api = "0.133"
zk_evm = "0.133"
anyhow = "1"
once_cell = "1"
xshell = "0.2"
