[package]
name = "qmux_endpoint"
version = "0.1.0"
edition = "2021"
publish = false

[dependencies]
boring = "4"
clap = { version = "4", features = ["derive"] }
env_logger = "*"
log = "0.4"
octets = "0.3"
quiche = "*"
tokio = { version = "1", features = ["full"] }
tokio-boring = "4"
url = "2"
