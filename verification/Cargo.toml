[package]
name = "tmd_viewer"
version = "0.1.0"
edition = "2021"
publish = false

[dependencies]
zip = { version = "*", default-features = false, features = ["deflate"] }
image = { version = "*", default-features = false, features = ["png", "jpeg", "gif", "bmp"] }
actix-web = { version = "*", default-features = false, features = ["macros"] }
actix-files = "*"
mime = "*"
serde = { version = "*", features = ["derive"] }
serde_yaml = "*"
base64 = "*"

[dev-dependencies]
chrono = "*"
csv = "*"
regex = "*"
