[package]
name = "kyoso"
version = "0.1.0"
edition = "2021"
publish = false

[dependencies]
bevy = { version = "0.19", default-features = false, features = ["bevy_state"] }
crossbeam-channel = "=0.5.17"
once_cell = "=1.21.4"
postcard = { version = "=1.1.3", default-features = false, features = ["alloc"] }
schemars = "=1.2.3"
serde = { version = "=1.0.229", features = ["derive"] }
serde_json = "=1.0.154"
uuid = { version = "=1.29.0", features = ["v4"] }
