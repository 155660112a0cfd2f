[package]
name = "polars_engine"
version = "0.1.0"
edition = "2021"
publish = false

[dependencies]
crossbeam-channel = "*"
crossbeam-deque = "*"
crossbeam-utils = "*"
libc = "0.2"
parking_lot = "*"
pin-project-lite = "0.2"
rand = "*"
rayon = "1"
slotmap = "1"

[dev-dependencies]
rustix = { version = "*", features = ["time"] }
