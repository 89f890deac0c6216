[package]
name = "uwgit"
version = "0.1.0"
edition = "2021"
publish = false

[dependencies]
ammonia = "4"
anyhow = "1"
askama = "0.12"
axum = "0.8"
dotenvy = "0.15"
git2 = { version = "0.20", default-features = false }
moka = { version = "0.12", features = ["sync"] }
pulldown-cmark = { version = "0.13", default-features = false, features = ["html"] }
serde = { version = "1", features = ["derive"] }
syntect = { version = "5", default-features = false, features = ["default-syntaxes", "parsing", "regex-fancy"] }
time = "0.3"
tokio = { version = "1", features = ["rt-multi-thread", "macros", "net"] }
tower-http = { version = "0.6", features = ["fs"] }
urlencoding = "2"
