[package]
name = "gradtape"
version = "0.1.0"
edition = "2021"
publish = false

[dependencies]
rustc_apfloat = "0.2"

[dev-dependencies]
rand = "0.8"
rand_distr = "0.4"
