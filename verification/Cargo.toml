[package]
name = "video_store"
version = "0.1.0"
edition = "2021"
publish = false

[dependencies]
poem = { version = "3", features = ["tower-compat"] }
poem-openapi = { version = "5", features = ["swagger-ui"] }
time = { version = "=0.3.55", features = ["macros", "formatting"] }
tokio = { version = "=1.54.1", features = ["full"] }
tower = { version = "=0.4.13", features = ["limit"] }
tracing = "=0.1.44"
tracing-subscriber = "=0.3.23"
uuid = { version = "=1.29.0", features = ["v4"] }
