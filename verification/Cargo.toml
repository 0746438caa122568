[package]
name = "guise"
version = "0.1.0"
edition = "2021"
publish = false

[dependencies]
arrayvec = "0.7"
bytemuck = { version = "1", features = ["derive"] }
libm = "0.2"
