[package]
name = "keep-a-changelog"
version = "0.1.0"
edition = "2021"
publish = false

[dependencies]
chrono = "0.4"
clap = { version = "4", features = ["derive"] }
colored = "2"
config = { version = "*", default-features = false, features = ["yaml"] }
eyre = "0.6"
git2 = { version = "*", default-features = false }
once_cell = "1"
regex = "1"
semver = "1"
serde = { version = "1", features = ["derive"] }
serde_json = "1"
tokio = { version = "1", features = ["macros", "rt-multi-thread"] }
version = "3"
