[package]
name = "revlog"
version = "0.1.0"
edition = "2021"
publish = false

[dependencies]
fsrs = "=6.6.2"
num_enum = "=0.7.6"
serde = { version = "=1.0.229", features = ["derive"] }
serde_repr = "=0.1.21"
serde_tuple = "=0.5.0"
