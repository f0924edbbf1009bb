[package]
name = "esp-hal-rmt-onewire"
version = "0.1.0"
edition = "2021"
publish = false

[dependencies]
esp-hal = { version = "=1.0.0-beta.0", features = ["esp32c3", "unstable"] }
embassy-futures = "0.1"
