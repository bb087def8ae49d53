[package]
name = "rift_bus"
version = "0.1.0"
edition = "2021"
publish = false

[dependencies]
serde = { version = "=1.0.229", features = ["derive"] }
serde_json = "=1.0.154"
serde_yaml = "=0.9.34"
toml = "=0.8.23"
tokio = { version = "=1.54.1", features = ["sync", "rt", "rt-multi-thread", "macros", "time", "fs", "io-util", "process", "net"] }
directories = "=5.0.1"
getrandom = "=0.2.17"
thiserror = "=1.0.69"
tracing = "=0.1.44"
keyring = "=3.6.3"
globset = "=0.4.21"
notify = "=6.1.1"
dunce = "=1.0.5"
parking_lot = "=0.12.5"
async-trait = "=0.1.92"
futures-core = "=0.3.34"
libc = "=0.2.191"
reqwest = { version = "0.12", default-features = false, features = ["json"] }
interprocess = { version = "2", features = ["tokio"] }
widestring = "1"

[dev-dependencies]
