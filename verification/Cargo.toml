[package]
name = "cookie_monster"
version = "0.1.0"
edition = "2021"
publish = false

[dependencies]
percent-encoding = "*"
axum-core = "*"
http = "*"
chrono = "*"
jiff = "*"
time = "*"
