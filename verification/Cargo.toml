[package]
name = "unjosefizer"
version = "0.1.0"
edition = "2021"
publish = false

[dependencies]
anyhow = "*"
nalgebra = "*"
quick-xml = { version = "*", features = ["serialize"] }
regex = "*"
rstar = "*"
serde = { version = "*", features = ["derive"] }
serde_json = "*"
zip = { version = "*", default-features = false }
