[package]
name = "mandelbrot"
version = "0.1.0"
edition = "2021"
publish = false

[dependencies]
num = "*"
image = "*"
crossbeam = "*"
rayon = "*"
colored = "*"
text-colorizer = "*"
thiserror = "*"
serde = { version = "*", features = ["derive"] }
serde_json = "*"
byteorder = "*"
ahash = "*"
fnv = "*"
rand = "*"
