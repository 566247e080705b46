[package]
name = "nemo_metamorphic_testing"
version = "0.1.0"
edition = "2021"
publish = false

[dependencies]
rand = "=0.9.5"
rand_chacha = "=0.9.0"
