[package]
name = "ccstatusline_rs"
version = "0.1.3"
edition = "2021"
publish = false

[dependencies]
anstyle = "1"
anstyle-query = "1"
clap = { version = "4", features = ["derive"] }
directories = "*"
jiff = "0.2"
schemars = "*"
serde = { version = "1", features = ["derive"] }
serde_json = "1"
thiserror = "*"
wait-timeout = "0.2"
xxhash-rust = { version = "0.8", features = ["xxh3"] }
