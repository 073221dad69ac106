[package]
name = "mopad"
version = "0.1.0"
edition = "2021"
publish = false

[dependencies]
argon2 = "=0.5.3"
rand_core = { version = "=0.6.4", features = ["getrandom"] }
serde = { version = "*", features = ["derive"] }
serde_json = "*"
tokio = { version = "*", features = ["macros", "rt-multi-thread", "net", "fs", "signal", "sync", "io-util"] }
axum = { version = "*", features = ["ws"] }
clap = { version = "*", features = ["derive"] }
time = { version = "*", features = ["formatting"] }
