[package]
name = "lattice_cvp"
version = "0.1.0"
edition = "2021"
publish = false

[dependencies]
gmp-mpfr-sys = { version = "~1.5", default-features = false, features = ["use-system-libs"] }
itertools = "=0.15.0"
ndarray = "=0.17.2"
plotters = { version = "=0.3.7", default-features = false, features = ["svg_backend", "line_series"] }
rug = { version = "=1.19.2", default-features = false, features = ["integer", "rational", "rand"] }
