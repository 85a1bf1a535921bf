[package]
name = "rl78_sim"
version = "0.1.0"
edition = "2021"
publish = false

[dependencies]
crossbeam-queue = "0.3"
iceoryx2 = "*"
iceoryx2-bb-system-types = "*"
libc = "0.2"
object = "*"
raw_sync = "0.1"
serde = { version = "1", features = ["derive"] }
serde_json = "1"
shared_memory = "0.12"
thiserror = "2"
xxhash-rust = { version = "0.8", features = ["xxh3"] }
