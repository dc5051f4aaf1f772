[package]
name = "dank-gallery"
version = "0.1.0"
edition = "2021"
publish = false

[dependencies]
dns-protocol = "=0.1.2"
rss = "=2.1.2"
rand = "=0.8.8"
dither = "=1.3.10"
clap = "=3.0.0-beta.1"
clap_derive = "=3.0.0-beta.1"
image = "0.23"
serde = { version = "=1.0.229", features = ["derive"] }
serde_json = "=1.0.154"
tokio = { version = "=1.54.1", features = ["full"] }
warp = { version = "=0.4.3", features = ["server"] }
reqwest = "=0.13.5"
roux = "=2.3.0"
anyhow = "=1.0.104"
epd-waveshare = "=0.5.0"
embedded-hal = "=0.2.7"
embassy-net = { version = "=0.9.1", features = ["tcp", "udp", "proto-ipv4", "proto-ipv6", "medium-ethernet"] }
embassy-time = "=0.5.1"
embedded-io-async = "=0.7.0"
cyw43 = "=0.7.0"
