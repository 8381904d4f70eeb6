[package]
name = "jim"
version = "0.1.0"
edition = "2021"
publish = false

[dependencies]
anyhow = "=1.0.104"
async-trait = "=0.1.92"
chrono = "=0.4.45"
env_logger = "=0.11.11"
lexpr = "=0.2.7"
log = "=0.4.34"
mqtt-async-client = "=0.3.1"
serde_json = { version = "=1.0.154", features = ["preserve_order"] }
structopt = "=0.3.26"
tokio = { version = "=1.54.1", features = ["full"] }
