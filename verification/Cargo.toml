[package]
name = "hello_actix"
version = "0.1.0"
edition = "2021"
publish = false

[dependencies]
rand = "0.8"
serde = { version = "1", features = ["derive"] }
serde_json = "1"
actix-web = "4"
actix-web-httpauth = "0.8"
jsonwebtoken = "9"
redis = { version = "0.24", features = ["tokio-comp"] }
reqwest = { version = "0.11", default-features = false, features = ["json"] }
sqlx = { version = "0.7", default-features = false, features = ["runtime-tokio-rustls", "postgres"] }
