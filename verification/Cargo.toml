[package]
name = "battle_arena_2000"
version = "0.1.0"
edition = "2021"
publish = false

[dependencies]
async-std = "1"
futures = "0.3"
log = "0.4"
env_logger = "0.9"
serde = { version = "1", features = ["derive"] }
bincode = "1"
thiserror = "1"
