[package]
name = "minisql"
version = "0.1.0"
edition = "2021"
publish = false

[dependencies]
inquire = "*"
serde = { version = "*", features = ["derive"] }
serde_json = "*"
tabwriter = "*"
thiserror = "*"
