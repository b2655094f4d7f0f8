[package]
name = "brainpluck"
version = "0.1.0"
edition = "2021"
publish = false

[dependencies]
nom = "=5.1.3"
num = "=0.4.3"
num-format = "=0.4.4"
wat = { version = "=1.263.0", default-features = false }
