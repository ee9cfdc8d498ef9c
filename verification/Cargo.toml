[package]
name = "tg_storage"
version = "0.1.0"
edition = "2021"
publish = false

[dependencies]
aes-gcm = "=0.10.3"
anyhow = "=1.0.104"
argon2 = "=0.5.3"
chrono = "=0.4.45"
clap = { version = "=4.6.7", features = ["derive"] }
dotenvy = "=0.15.7"
image = { version = "=0.24.9", default-features = false, features = ["png", "jpeg", "gif", "bmp", "webp"] }
r2d2 = "=0.8.10"
r2d2_sqlite = "=0.24.0"
rand = "=0.8.8"
reqwest = { version = "=0.11.27", default-features = false, features = ["rustls-tls"] }
rusqlite = { version = "=0.31.0", features = ["bundled"] }
sha2 = "=0.10.9"
teloxide = { version = "=0.12.2", default-features = false, features = ["rustls"] }
# teloxide rests on takecell, whose next release needs a later compiler.
takecell = "=0.1.1"
thiserror = "=1.0.69"
tokio = { version = "=1.54.1", features = ["rt-multi-thread", "macros", "time"] }
