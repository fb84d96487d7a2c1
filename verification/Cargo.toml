[package]
name = "iyes_mesh"
version = "0.1.0"
edition = "2021"
publish = false

[dependencies]
anyhow = "=1.0.104"
bitcode = "=0.6.9"
bytemuck = { version = "=1.25.2", features = ["derive"] }
clap = { version = "=4.6.7", features = ["derive"] }
obj-rs = "0.7"
rapidhash = "=1.4.0"
thiserror = "=2.0.21"
zstd = { version = "=0.13.3", features = ["experimental"] }
