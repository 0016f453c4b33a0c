[package]
name = "kindling"
version = "0.1.0"
edition = "2021"
publish = false

[dependencies]
axum = "*"
chrono = "*"
eyre = "*"
serde = { version = "*", features = ["derive"] }
askama = "*"

[dev-dependencies]
png = "*"
