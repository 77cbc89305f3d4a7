[package]
name = "lance_index"
version = "0.1.0"
edition = "2021"
publish = false

[dependencies]
arrow = { version = "=60.1.0", default-features = false }
arrow-array = "=60.1.0"
arrow-schema = "=60.1.0"
async-trait = "=0.1.92"
bytes = "=1.12.1"
deepsize = "=0.2.0"
futures = "=0.3.34"
log = "=0.4.35"
murmur3 = "=0.5.2"
num-traits = "=0.2.19"
prost = "=0.14.4"
roaring = "=0.12.0"
serde = { version = "=1.0.229", features = ["derive"] }
serde_json = "=1.0.154"
uuid = { version = "=1.29.0", features = ["serde"] }
