[package]
name = "mame"
version = "0.1.0"
edition = "2021"
publish = false

[dependencies]
unicode-width = "*"
serde = { version = "*", features = ["derive"] }
serde_json = "*"
mio = { version = "*", features = ["os-poll", "net"] }
libc = "*"
jsonlrpc = "*"
jsonlrpc_mio = "*"
crossterm = "*"
log = "*"
