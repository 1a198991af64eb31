[package]
name = "ambilight"
version = "0.1.0"
edition = "2021"
publish = false

[dependencies]
color_quant = "*"
color-thief = "*"
image = { version = "*", default-features = false }
btleplug = "*"
dxgcap = "*"
futures = "*"
tokio = { version = "*", features = ["rt-multi-thread", "macros"] }
uuid = "*"
