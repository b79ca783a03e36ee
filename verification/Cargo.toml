[package]
name = "aqa_asm"
version = "0.1.0"
edition = "2021"
publish = false

[dependencies]
inline_colorization = "*"
clap = { version = "4", features = ["derive"] }
