[package]
name = "kairos"
version = "0.1.0"
edition = "2021"
publish = false

[dependencies]
ahash = "0.8"
heapless = "0.8"
priority-queue = "2"
