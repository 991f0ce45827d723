[package]
name = "duck"
version = "0.1.0"
edition = "2021"
publish = false

[dependencies]
pulldown-cmark = { version = "=0.13.6", default-features = false, features = ["html"] }
syntect = { version = "=5.3.0", default-features = false, features = ["default-fancy"] }
serde = { version = "=1.0.229", features = ["derive"] }
serde_json = "=1.0.154"
clap = { version = "=4.6.7", features = ["derive"] }
glob = "=0.3.4"
indicatif = "=0.18.6"
rayon = "=1.12.0"
tera = "=1.20.1"
clang = { version = "=2.1.0", features = ["runtime"] }
