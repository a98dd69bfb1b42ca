[package]
name = "eye"
version = "0.1.0"
edition = "2021"
publish = false

[dependencies]
tokio = { version = "1", features = ["net", "io-util", "sync", "rt-multi-thread", "macros", "time"] }
prost = "*"
pnet = "*"
xdg = "2"
i2c-linux = "0.1"
