[package]
name = "kaeru"
version = "0.1.0"
edition = "2021"
publish = false

[dependencies]
axum = "=0.8.9"
chrono = "=0.4.45"
cozo = { version = "=0.7.6", default-features = false, features = ["rayon"] }
serde = { version = "1", features = ["derive"] }
serde_json = "=1.0.154"
utoipa = "=5.5.0"
utoipa-axum = "=0.2.0"
utoipa-swagger-ui = { version = "=9.0.2", features = ["axum", "vendored"] }

[dev-dependencies]
http-body-util = "0.1"
tokio = { version = "1", features = ["macros", "rt"] }
tower = { version = "0.5", features = ["util"] }
