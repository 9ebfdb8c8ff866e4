[package]
name = "assembly_theory"
version = "0.1.0"
edition = "2021"
publish = false

[dependencies]
quick-xml = "*"
tobj = "*"
ahash = "*"
nalgebra = "*"
qhull = "*"
image = { version = "*", default-features = false, features = ["png"] }
