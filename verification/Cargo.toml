[package]
name = "mtg_proxy_creator"
version = "0.1.0"
edition = "2021"
publish = false

[dependencies]
anyhow = "=1.0.104"
futures = "=0.3.34"
image = "=0.24.9"
printpdf = { version = "=0.6.0", features = ["embedded_images"] }
reqwest = { version = "=0.12.28", default-features = false, features = ["json"] }
serde_json = "=1.0.151"
tokio = { version = "=1.53.2", features = ["full"] }

[dev-dependencies]
regex = "=1.13.1"
urlencoding = "=2.1.3"
