[package]
name = "celtchar"
version = "0.1.0"
edition = "2021"
publish = false

[dependencies]
clap = "2"
ogam = "*"
roman = "*"
serde = "1"
serde_derive = "1"
serde_json = "1"
tera = "1"
toml = "*"
zip = "0.6"
