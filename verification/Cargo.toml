[package]
name = "grimmod"
version = "0.1.0"
edition = "2021"
publish = false

[dependencies]
goblin = "=0.10.7"
libc = "=0.2.191"
once_cell = "=1.21.4"
serde = { version = "=1.0.229", features = ["derive"] }
toml = "=1.1.8"
ctor = "=1.0.13"
mach2 = "*"
