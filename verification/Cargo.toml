[package]
name = "gaveldrop"
version = "0.1.6"
edition = "2021"
publish = false

[dependencies]
serde = { version = "1", features = ["derive"] }
serde_json = "1"
serde_yaml_ng = "*"
anstyle = "1"
anstream = "*"
clap = { version = "4", features = ["derive"] }
anyhow = "1"
glob = "0.3"
tempfile = "3"
tiny_http = "0.12"
ureq = { version = "3", default-features = false }
schemars = "1"
thiserror = "2"
