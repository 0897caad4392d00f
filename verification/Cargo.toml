[package]
name = "ppl"
version = "0.1.0"
edition = "2021"
publish = false

[dependencies]
miette = "=5.10.0"
thiserror = "=1.0.69"
logos = "=0.13.0"
rug = { version = "=1.30.0", default-features = false, features = ["integer", "rational"] }
gmp-mpfr-sys = { version = "=1.7.1", default-features = false, features = ["use-system-libs"] }
libc = "0.2"
