[package]
name = "ruv_fann"
version = "0.1.0"
edition = "2021"
publish = false

[dependencies]
num_cpus = "1"
log = "0.4"
lazy_static = "1.4"
rayon = "1"
