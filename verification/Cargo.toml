[package]
name = "up4"
version = "0.1.0"
edition = "2021"
publish = false

[dependencies]
clap = { version = "4", features = ["derive", "env"] }
libc = "0.2"
quinn-udp = "*"
rbpf = "*"
serde = { version = "1", features = ["derive"] }
serde_json = "1"
socket2 = { version = "*", features = ["all"] }
toml = "*"
tracing = "0.1"
