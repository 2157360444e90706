[package]
name = "mh_events2pulsar"
version = "0.1.0"
edition = "2021"
publish = false

[dependencies]
uuid = { version = "=1.27.0", features = ["v4"] }
serde = { version = "=1.0.229", features = ["derive"] }
actix-web = "=4.15.0"
pulsar = "=4.1.3"
envy = "=0.4.2"
env_logger = "=0.11.11"
log = "=0.4.34"
