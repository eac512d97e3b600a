[package]
name = "btcmap_api"
version = "0.1.0"
edition = "2021"
publish = false

[dependencies]
regex = "=1.13.1"
time = { version = "=0.3.55", features = ["parsing", "formatting", "macros"] }
image = { version = "=0.25.10", default-features = false, features = ["png", "jpeg", "webp", "bmp"] }
argon2 = "=0.5.3"
serde = { version = "=1.0.229", features = ["derive"] }
serde_json = "=1.0.154"
uuid = { version = "=1.29.0", features = ["v4"] }
actix-web = "=4.18.1"
names = { version = "=0.14.0", default-features = false }
geo = "=0.33.1"
geojson = "=1.0.0"
