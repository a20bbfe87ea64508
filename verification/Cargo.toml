[package]
name = "tcp_messenger"
version = "0.1.0"
edition = "2021"
publish = false

[dependencies]
chacha20poly1305 = "0.10"
rand_chacha = "0.3"
x25519-dalek = "2"
clap = { version = "4", features = ["derive"] }
serde = { version = "1", features = ["derive"] }
toml = "0.8"
crossterm = "0.28"
chrono = "0.4"
fastrand = "2"
