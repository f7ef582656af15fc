[package]
name = "devserver"
version = "0.1.0"
edition = "2021"
publish = false

[dependencies]
axum = "=0.6.20"
clap = { version = "=4.6.7", features = ["derive", "env"] }
mime_guess = "=2.0.5"
tokio = { version = "=1.54.1", features = ["macros", "rt-multi-thread"] }
