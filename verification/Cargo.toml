[package]
name = "ecs_core"
version = "0.1.0"
edition = "2021"
publish = false

[dependencies]
concurrent-queue = "2.5"
crossbeam-utils = "0.8"
derive_more = { version = "1", features = ["display", "error"] }
disqualified = "1"
log = "0.4"
serde = { version = "1", features = ["derive"] }
smallvec = { version = "1", features = ["union"] }
thiserror = "2"
thread_local = "1"
