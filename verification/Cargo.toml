[package]
name = "turnip"
version = "0.1.0"
edition = "2021"
publish = false

[dependencies]
clap = { version = "=4.6.7", features = ["derive"] }
corncobs = { version = "=0.1.4", features = ["std"] }
libc = "=0.2.191"
netns-rs = "=0.2.0"
sd-notify = "=0.5.0"
serial2-tokio = { version = "=0.1.26", features = ["unix"] }
tokio = { version = "=1.54.1", features = ["io-util", "macros", "rt-multi-thread", "time"] }
tracing = "=0.1.44"
tracing-subscriber = { version = "=0.3.23", features = ["env-filter"] }
tun-rs = { version = "=2.8.16", features = ["async"] }
