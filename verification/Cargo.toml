[package]
name = "demangle"
version = "0.1.0"
edition = "2021"
publish = false

[dependencies]
nom = { version = "=2.2.1", features = ["verbose-errors"] }
