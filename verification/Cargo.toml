[package]
name = "clowder"
version = "0.1.0"
edition = "2021"
publish = false

[dependencies]
chrono = "*"
url = "*"
marksman_escape = "*"
