[package]
name = "wlsunset_rs"
version = "0.1.0"
edition = "2021"
publish = false

[dependencies]
anyhow = "*"
bytemuck = "*"
chrono = "*"
clap = { version = "*", features = ["derive"] }
memmap2 = "*"
nix = { version = "*", features = ["poll", "signal"] }
serde = { version = "*", features = ["derive"] }
serde_json = "*"
sunrise = "*"
tempergb = "*"
tokio = { version = "*", features = ["macros", "rt-multi-thread", "io-util", "io-std", "sync", "signal", "time", "net"] }
wayland-client = "*"
wayland-protocols-wlr = { version = "*", features = ["client"] }
zbus = "*"
