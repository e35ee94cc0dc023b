[package]
name = "media_core"
version = "0.1.0"
edition = "2021"
publish = false

[dependencies]
sha2 = "0.10"
httpdate = "1"
mime_guess = "2"
serde_json = "1"
serde = { version = "1", features = ["derive"] }
axum = "0.6"
tokio = { version = "1", features = ["full"] }
tokio-util = { version = "0.7", features = ["io"] }
tower-http = { version = "0.4", features = ["cors", "fs"] }
sqlx = { version = "0.7", default-features = false, features = ["runtime-tokio", "sqlite"] }
clap = "4"
dirs = "5"
futures = "0.3"
image = { version = "0.24", default-features = false, features = ["jpeg", "png"] }
nix = { version = "0.29", features = ["user"] }
tracing = "0.1"
tracing-subscriber = "0.3"
