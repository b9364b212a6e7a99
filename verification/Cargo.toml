[package]
name = "quantfocus"
version = "0.1.0"
edition = "2021"
publish = false

[dependencies]
png = "*"
serde = { version = "*", features = ["derive"] }
sdl2 = "*"
