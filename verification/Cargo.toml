[package]
name = "m3u8_relay"
version = "0.1.0"
edition = "2021"
publish = false

[dependencies]
url = "*"
serde_json = "*"
reqwest = { version = "*", default-features = false, features = ["stream"] }
actix-web = { version = "*", default-features = false, features = ["macros"] }
actix-cors = "*"
futures-util = "*"
dotenvy = "*"
num_cpus = "*"

[dev-dependencies]
urlencoding = "*"
