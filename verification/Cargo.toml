[package]
name = "daily_palette"
version = "0.1.0"
edition = "2021"
publish = false

[dependencies]
exoquant = "*"
image = "*"
kuchiki = "*"
termion = "*"
hyper = { version = "*", features = ["client", "http1"] }
hyper-rustls = "*"
hyper-util = { version = "*", features = ["client-legacy", "http1", "tokio"] }
http-body-util = "*"
tokio = { version = "*", features = ["full"] }
clap = { version = "*", features = ["derive"] }
serde = { version = "*", features = ["derive"] }
toml = "*"

[dev-dependencies]
serde_json = "*"
