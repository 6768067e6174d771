[package]
name = "rabbithole"
version = "0.1.0"
edition = "2021"
publish = false

[dependencies]
actix-web = "=4.18.1"
proc-macro2 = "=1.0.107"
quote = "=1.0.47"
rsql-rs = "=0.2.0"
serde = { version = "=1.0.229", features = ["derive"] }
serde_json = "=1.0.154"
syn = "=1.0.109"
url = "=2.5.8"

[dev-dependencies]
percent-encoding = "=2.3.2"
