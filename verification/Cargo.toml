[package]
name = "amqp_consumer"
version = "0.1.0"
edition = "2021"
publish = false

[dependencies]
lapin = { version = "*", default-features = false }
futures-lite = "*"
