[package]
name = "sandbox"
version = "0.1.0"
edition = "2021"
publish = false

[dependencies]
regex = "1"
serde = { version = "1", features = ["derive"] }
serde_json = "1"
anyhow = "1"
bincode = "1"
caps = "0.5"
landlock = "0.2"
seccompiler = "0.4"
log = "0.4"
nix = "0.26"
libc = "0.2"
uuid = { version = "1", features = ["v4"] }
