[package]
name = "domain_auth"
version = "0.1.0"
edition = "2021"
publish = false

[dependencies]
jsonwebtoken = { version = "=11.1.0", features = ["rust_crypto"] }
url = "=2.5.8"
uuid = { version = "=1.27.0", features = ["v4"] }
chrono = "=0.4.45"
bcrypt = "=0.19.3"
serde = { version = "=1.0.229", features = ["derive"] }
actix-web = "=4.15.0"
actix-cors = "=0.7.2"
derive_more = { version = "=2.1.1", features = ["display", "error"] }
dotenvy = "=0.15.7"
env_logger = "=0.11.11"
log = "=0.4.34"
futures = "=0.3.34"

[dev-dependencies]
ed25519-dalek = { version = "=2.2.0", features = ["pem", "rand_core"] }
rand_core = { version = "=0.6.4", features = ["getrandom"] }
