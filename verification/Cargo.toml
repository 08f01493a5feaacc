[package]
name = "page_stream"
version = "0.1.0"
edition = "2021"
publish = false

[dependencies]
axum = { version = "0.8", default-features = false, features = ["http1", "tokio", "query"] }
axum_session = { version = "*", default-features = false }
clap = { version = "4", default-features = false, features = ["std", "derive"] }
futures = { version = "0.3", default-features = false, features = ["std"] }
tokio = { version = "1", features = ["macros", "rt-multi-thread", "fs", "net"] }
yew = { version = "0.21", features = ["ssr"] }
yew-router = "0.18"
