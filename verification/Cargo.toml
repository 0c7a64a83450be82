[package]
name = "dbug_desktop"
version = "0.1.0"
edition = "2021"
publish = false

[dependencies]
async-std = "=1.13.2"
chrono = "=0.4.45"
dirs = "=7.0.0"
futures = "=0.3.34"
global-hotkey = "=0.9.0"
iced = { version = "=0.14.0", default-features = false, features = ["tiny-skia", "x11", "svg", "tokio"] }
iced_core = "=0.14.0"
millisecond = "=0.15.14"
palette = "=0.7.7"
serde = { version = "=1.0.229", features = ["derive"] }
serde_json = "=1.0.154"
sipper = "=0.2.1"
syntect = { version = "=5.3.0", default-features = false, features = ["default-fancy"] }
tokio = { version = "=1.54.1", features = ["time", "rt"] }
warp = { version = "=0.4.3", features = ["server"] }
