[package]
name = "asynchronix"
version = "0.3.0"
edition = "2021"
publish = false

[dependencies]
bytes = "1"
ciborium = "0.2"
crossbeam-utils = "0.8"
diatomic-waker = "0.2"
dyn-clone = "1"
futures-channel = "0.3"
prost = "0.13"
prost-types = "0.13"
recycle-box = "0.2"
rmp-serde = "1"
serde = { version = "1", features = ["derive"] }
slab = "0.4"
tai-time = "0.3"
tokio = { version = "1", features = ["net", "rt-multi-thread"] }
tonic = { version = "0.12", default-features = false, features = ["codegen", "prost", "server"] }
wasm-bindgen = "0.2"
