[package]
name = "uv_resolver"
version = "0.1.0"
edition = "2021"
publish = false

[dependencies]
anstream = "0.6"
anyhow = "1"
dashmap = "5"
fs-err = { version = "2", features = ["tokio"] }
futures = "0.3"
itertools = "0.13"
miette = "7"
owo-colors = "4"
pep440_rs = "*"
pep508_rs = "*"
astral-pubgrub = "=0.3.3"
rustc-hash = "1"
textwrap = "0.16"
tokio = { version = "1", features = ["macros", "rt", "sync", "fs"] }
tokio-stream = "0.1"
toml = "0.8"
tracing = "0.1"
