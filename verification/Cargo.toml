[package]
name = "nginx_metrics"
version = "0.1.0"
edition = "2021"
publish = false

[dependencies]
chrono = { version = "0.4", default-features = false, features = ["std"] }
prometheus = "*"
actix-web = "4"
actix-web-prom = "*"
clap = { version = "4", features = ["derive"] }
dotenv = "0.15"
env_logger = "*"
log = "0.4"

[dev-dependencies]
regex = "1"
