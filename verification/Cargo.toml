[package]
name = "systeminfo"
version = "0.1.0"
edition = "2021"
publish = false

[dependencies]
uuid = { version = "*", features = ["v4"] }
amqprs = "*"
amqp_serde = "*"
tokio = { version = "*", features = ["full"] }
sysinfo = "*"
