[package]
name = "avian_bvh"
version = "0.1.0"
edition = "2021"
publish = false

[dependencies]
bevy = { version = "0.18", default-features = false, features = ["std", "multi_threaded", "async_executor"] }
obvhs = "0.3"
thread_local = "1.1"
