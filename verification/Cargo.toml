[package]
name = "merino"
version = "0.1.0"
edition = "2021"
publish = false

[dependencies]
anyhow = "1"
byteorder = "1"
clap = { version = "4", features = ["derive"] }
csv = "1"
ppc750cl = "*"
serde = { version = "1", features = ["derive"] }
