[package]
name = "bbb_chatlog"
version = "0.1.0"
edition = "2021"
publish = false

[dependencies]
json = "0.12"
chrono = "0.4"
