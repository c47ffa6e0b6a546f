[package]
name = "pl0_vm"
version = "0.1.0"
edition = "2021"
publish = false

[dependencies]
rust-i18n = "3"
