[package]
name = "rpg_util"
version = "0.1.0"
edition = "2021"
publish = false

[dependencies]
rand = "0.9"
clap = { version = "4", features = ["derive"] }
clipboard = "0.5"
serde_json = "1"
