[package]
name = "cosmic-applet-show-desktop"
version = "0.1.0"
edition = "2021"
publish = false

[dependencies]
cosmic-client-toolkit = "0.2.0"
futures = "=0.3.34"
tokio = { version = "=1.54.1", features = ["rt", "rt-multi-thread"] }
tracing = "=0.1.44"
tracing-log = "=0.2.0"
tracing-subscriber = "=0.3.23"
