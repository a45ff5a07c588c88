[package]
name = "rsomics-epps-singleton"
version = "0.1.0"
edition = "2021"
publish = false

[dependencies]
clap = { version = "4", features = ["derive"] }
fast-float2 = "*"
rsomics-common = "*"
serde = { version = "1", features = ["derive"] }
