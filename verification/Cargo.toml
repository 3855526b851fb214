[package]
name = "meteo_station"
version = "0.1.0"
edition = "2021"
publish = false

[dependencies]
chrono = "0.4"
tokio = { version = "1", features = ["rt-multi-thread", "macros", "sync", "time", "process"] }
serde = { version = "1", features = ["derive"] }
serde_json = "1"
log = "0.4"
env_logger = "0.11"
reqwest = { version = "0.12", default-features = false, features = ["json"] }
rsntp = "4"
serialport = { version = "4", default-features = false }
sysfs_gpio = "0.6"
config = { version = "0.14", default-features = false, features = ["toml"] }
time = { version = "0.3", features = ["formatting", "local-offset"] }
libc = "0.2"
