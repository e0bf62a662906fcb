[package]
name = "invoices"
version = "0.1.0"
edition = "2021"
publish = false

[dependencies]
base64 = "0.13"
chrono = { version = "0.4", default-features = false, features = ["std"] }
csv = "1"
kuchiki = "0.8"
log = "0.4"
markup5ever = "0.10"
serde = { version = "1", features = ["derive"] }
serde_derive = "1"
serde_json = "1"
