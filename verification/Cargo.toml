[package]
name = "mqtt_broker"
version = "0.1.0"
edition = "2021"
publish = false

[dependencies]
mqtt3 = "*"
slog = "2"
slog-async = "2"
slog-term = "2"
tokio-timer = "0.1"
futures = "0.1"
quick-error = "1"
