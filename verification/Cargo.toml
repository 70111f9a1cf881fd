[package]
name = "chat_prompt"
version = "0.1.0"
edition = "2021"
publish = false

[dependencies]
crossterm = "0.28"
eyre = "0.6"
rustyline = { version = "15", features = ["derive"] }
tokio = { version = "1", features = ["sync"] }
winnow = "0.6"
