[package]
name = "geocore"
version = "0.1.0"
edition = "2021"
publish = false

[dependencies]
bytemuck = "*"
libm = "*"
proj4rs = { version = "=0.2.0", features = ["crs-definitions"] }
