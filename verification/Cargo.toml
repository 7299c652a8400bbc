[package]
name = "burn_kernels"
version = "0.1.0"
edition = "2021"
publish = false

[dependencies]
burn-backend = { version = "=0.22.1", default-features = false, features = ["cubecl"] }
cubecl = { version = "=0.11.3", default-features = false, features = ["stdlib"] }
cubek = { version = "=0.3.1", default-features = false, features = ["convolution", "reduce"] }
serde = { version = "1", features = ["derive"] }
