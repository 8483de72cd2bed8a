[package]
name = "rubrica"
version = "0.1.0"
edition = "2021"
publish = false

[dependencies]
regex = "1"
roxmltree = "*"
sanitize-filename = "*"
sha2 = "0.10"
hex = "0.4"
shell-words = "1"
anyhow = "1"
thiserror = "*"
tokio = { version = "1", features = ["full"] }
sqlx = { version = "0.8", default-features = false, features = ["runtime-tokio", "sqlite", "chrono", "derive"] }
chrono = { version = "0.4", features = ["serde"] }
serde = { version = "1", features = ["derive"] }
toml = "*"
axum = "0.7"
clap = { version = "4", features = ["derive"] }
colored = "*"
rustyline = "*"
terminal_size = "*"
walkdir = "2"
tempfile = "3"
zip = { version = "2", default-features = false, features = ["deflate"] }
pdf-extract = "*"
