[package]
name = "cacert_install"
version = "0.1.0"
edition = "2021"
publish = false

[dependencies]
anyhow = "1"
clap = { version = "4", features = ["derive"] }
md5 = "*"
mozdevice = "*"
x509-parser = "*"
