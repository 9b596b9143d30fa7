[package]
name = "engine_q"
version = "0.1.0"
edition = "2021"
publish = false

[dependencies]
serde_ini = "0.2"
indexmap = { version = "1", features = ["serde-1"] }
serde_urlencoded = "0.7"
toml = "0.5"
md5 = "0.7"
url = "2"
regex = "1"
strip-ansi-escapes = "0.1"
Inflector = "0.11"
reedline = "*"
