[package]
name = "orderbook"
version = "0.1.0"
edition = "2021"
publish = false

[dependencies]
futures-util = "0.3"
getopts = "0.2"
serde = { version = "1", features = ["derive"] }
serde_json = "1"
termion = "1.5"
tokio = { version = "1", features = ["macros", "rt-multi-thread", "sync", "time"] }
tokio-tungstenite = { version = "0.17", features = ["rustls-tls-webpki-roots"] }
tui = { version = "0.19", default-features = false, features = ["termion"] }
url = "2"
