[package]
name = "snmptrap-rs"
version = "0.1.0"
edition = "2021"
publish = false

[dependencies]
aes = "*"
cfb-mode = "*"
hmac = "*"
sha1 = "*"
sha2 = "*"
rand = "*"
clap = { version = "4", features = ["derive"] }
libc = "0.2"
socket2 = { version = "*", features = ["all"] }
thiserror = "*"

[dev-dependencies]
rasn = "*"
rasn-smi = "*"
rasn-snmp = "*"
hex = "*"
base64 = "*"
