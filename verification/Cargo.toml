[package]
name = "pandora_web"
version = "0.1.0"
edition = "2021"
publish = false

[dependencies]
async-trait = "=0.1.92"
base64 = "=0.22.1"
bytes = "=1.12.1"
http = "=1.5.0"
log = "=0.4.35"
maud = "=0.26.0"
pingora-error = "=0.3.0"
pingora-http = "=0.3.0"
regex = "=1.13.1"
serde = { version = "=1.0.229", features = ["derive"] }
serde_yaml = "0.9"
structopt = "=0.3.26"
