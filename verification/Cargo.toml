[package]
name = "bookshelf"
version = "0.1.0"
edition = "2021"
publish = false

[dependencies]
rand = "0.8"
serde = { version = "1", features = ["derive"] }
serde_json = "1"
juniper = { version = "0.16", default-features = false }
actix-web = "4"
actix-session = { version = "0.10", features = ["cookie-session"] }
reqwest = { version = "0.12", default-features = false, features = ["json", "rustls-tls"] }
