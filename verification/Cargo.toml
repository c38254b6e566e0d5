[package]
name = "system_estv"
version = "0.1.0"
edition = "2021"
publish = false

[dependencies]
axum = "0.7"
tokio = { version = "1", features = ["macros", "rt-multi-thread", "net", "time", "signal", "sync"] }
serde = { version = "1", features = ["derive"] }
sysinfo = "0.30"
hostname = "0.3"
