[package]
name = "feed_subscription"
version = "0.1.0"
edition = "2021"
publish = false

[dependencies]
rmp = "=0.8.15"

[dev-dependencies]
rmp-serde = "=1.3.1"
