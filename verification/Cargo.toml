[package]
name = "neowright"
version = "0.1.0"
edition = "2021"
publish = false

[dependencies]
clap = { version = "4", features = ["derive"] }
libc = "0.2"
portable-pty = "*"
rmpv = "1"
serde = { version = "1", features = ["derive"] }
serde_json = "1"
unicode-width = "*"
uuid = { version = "1", features = ["v4"] }
vt100 = "*"
