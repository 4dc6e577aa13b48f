[package]
name = "osdockx"
version = "0.1.0"
edition = "2021"
publish = false

[dependencies]
anyhow = "=1.0.104"
directories = "=6.0.0"
serde = { version = "=1.0.229", features = ["derive"] }
toml = "=1.1.8"
x11rb = { version = "=0.14.0", features = ["randr", "shape"] }
