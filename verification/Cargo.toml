[package]
name = "srb2_relay"
version = "0.1.0"
edition = "2021"
publish = false

[dependencies]
serde_json = "1"
serenity = "0.12"
tokio = { version = "1", features = ["macros", "rt-multi-thread", "time"] }
home = "0.5"
