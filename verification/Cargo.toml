[package]
name = "accumulator_store"
version = "0.1.0"
edition = "2021"
publish = false

[dependencies]
lru = "*"
sha3 = "*"
once_cell = "*"
parking_lot = "*"
serde = { version = "*", features = ["derive"] }
