[package]
name = "minisim"
version = "0.1.0"
edition = "2021"
publish = false

[dependencies]
hashbrown = "*"
lru = "*"
clap = { version = "4", features = ["derive"] }
csv = "1"
gnuplot = "*"
serde = { version = "1", features = ["derive"] }
toml = "*"
tracing = "0.1"
tracing-subscriber = "0.3"
