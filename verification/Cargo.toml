[package]
name = "tockloader_lib"
version = "0.1.0"
edition = "2021"
publish = false

[dependencies]
async-trait = "0.1"
byteorder = "1"
bytes = "1"
clap = "4"
itertools = "*"
log = "0.4"
probe-rs = "*"
tar = "0.4"
thiserror = "*"
tokio = { version = "1", features = ["rt", "rt-multi-thread", "macros", "time", "io-util"] }
tokio-serial = "*"
toml = "*"
utf8-decode = "*"
