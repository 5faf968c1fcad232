[package]
name = "proedit"
version = "0.1.0"
edition = "2021"
publish = false

[dependencies]
num-rational = "0.4"
num-integer = "0.1"
smallvec = "1"
serde = { version = "1", features = ["derive"] }
serde_json = "1"
thiserror = "1"
glam = { version = "*", features = ["serde", "bytemuck"] }
bytemuck = { version = "1", features = ["derive"] }
dirs = "*"
which = "*"
num_cpus = "1"
tracing = "0.1"
