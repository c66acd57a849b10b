[package]
name = "message_board"
version = "0.1.0"
edition = "2021"
publish = false

[dependencies]
diesel = { version = "1.4", features = ["postgres"] }
env_logger = "0.5"
futures = "0.1"
hyper = "0.11"
log = "0.4"
