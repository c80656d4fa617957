[package]
name = "mpdeps"
version = "0.1.0"
edition = "2021"
publish = false

[dependencies]
shlex = "*"
clap = { version = "*", features = ["derive"] }
git2 = { version = "*", default-features = false }

[dev-dependencies]
serde_json = "*"
