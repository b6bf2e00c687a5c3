[package]
name = "hist_temps"
version = "0.1.0"
edition = "2021"
publish = false

[dependencies]
anyhow = "1"
chrono = "0.4"
clap = { version = "4", features = ["derive"] }
influxdb2 = "*"
quick-xml = "0.31"
rand = "0.8"
reqwest = "0.11"
tokio = { version = "1", features = ["full"] }
tokio-stream = "0.1"
