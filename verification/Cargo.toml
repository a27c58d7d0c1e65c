[package]
name = "openboard"
version = "0.1.0"
edition = "2021"
publish = false

[dependencies]
ws = "=0.9.2"
log = "=0.4.34"
env_logger = "=0.7.1"
serde = { version = "=1.0.229", features = ["derive"] }
bitflags = "=1.3.2"

[dev-dependencies]
mio = "=0.6.23"
