[package]
name = "delinker"
version = "0.1.0"
edition = "2021"
publish = false

[dependencies]
anyhow = "1"
bytemuck = "1"
iced-x86 = "1"
object = { version = "0.36", features = ["write"] }
pdb2 = "*"
