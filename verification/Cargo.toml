[package]
name = "flow_kernel"
version = "0.1.0"
edition = "2021"
publish = false

[dependencies]
aarch64-cpu = "=9.4.0"
critical-section = "=1.2.0"
limine = "0.5"
tock-registers = "=0.8.1"
