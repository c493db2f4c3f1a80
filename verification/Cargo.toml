[package]
name = "video-hls-api"
version = "0.1.0"
edition = "2021"
publish = false

[dependencies]
hex = "0.4"
serde = { version = "1", features = ["derive"] }
serde_json = "1"
actix-web = { version = "4", default-features = false, features = ["macros"] }
actix-multipart = "0.7"
actix-cors = "0.7"
reqwest = { version = "0.12", default-features = false, features = ["multipart", "json"] }
utoipa = { version = "4", features = ["actix_extras"] }
utoipa-swagger-ui = { version = "7", features = ["actix-web"] }
uuid = { version = "1", features = ["v4"] }
dotenvy = "0.15"
futures-util = "0.3"
tracing = "0.1"
tracing-subscriber = { version = "0.3", features = ["env-filter"] }
tracing-actix-web = "0.7"
thiserror = "1"
