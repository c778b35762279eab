[package]
name = "poem_todo"
version = "0.1.0"
edition = "2021"
publish = false

[dependencies]
casbin = "2"
diesel = { version = "2", features = ["postgres"] }
dotenv = "0.15"
poem = "1.3"
serde = { version = "1", features = ["derive"] }
tokio = { version = "1", features = ["rt-multi-thread", "macros"] }
