[package]
name = "ebook_backend"
version = "0.1.0"
edition = "2021"
publish = false

[dependencies]
actix-cors = "*"
actix-files = "*"
actix-web = "*"
bcrypt = "=0.19.3"
chrono = "=0.4.45"
dotenv = "*"
env_logger = "*"
jsonwebtoken = { version = "=11.1.0", features = ["rust_crypto"] }
log = "*"
serde = { version = "*", features = ["derive"] }
serde_json = "*"
uuid = { version = "=1.27.0", features = ["v4"] }
