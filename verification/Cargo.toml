[package]
name = "template"
version = "0.1.0"
edition = "2021"
publish = false

[dependencies]
async-recursion = "*"
clap = { version = "*", features = ["derive"] }
dialoguer = "*"
thiserror = "*"
tokio = { version = "*", features = ["macros", "rt-multi-thread"] }
