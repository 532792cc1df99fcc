[package]
name = "chat_server"
version = "0.1.0"
edition = "2021"
publish = false

[dependencies]
regex = "1"
chrono = "0.4"
ctrlc = "3"
libc = "0.2"
