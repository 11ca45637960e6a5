[package]
name = "votechain"
version = "0.1.0"
edition = "2021"
publish = false

[dependencies]
bincode = "1"
sha2 = "0.10"
actix-web = "4"
actix-cors = "*"
tokio = { version = "1", features = ["macros", "rt-multi-thread"] }
tokio-postgres = "*"
jsonwebtoken = "*"
serde = { version = "1", features = ["derive"] }
serde_json = "1"
bcrypt = "*"
