[package]
name = "waypoint_core"
version = "0.1.0"
edition = "2021"
publish = false

[dependencies]
nmea = "*"
chrono = "0.4"
tokio = { version = "1", features = ["rt-multi-thread", "sync", "time", "io-util", "net", "fs", "macros"] }
serialport = { version = "4", default-features = false }
tracing = "0.1"
