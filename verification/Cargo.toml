[package]
name = "rpub"
version = "0.1.0"
edition = "2021"
publish = false

[dependencies]
arc-swap = "*"
chrono = "*"
dom_query = "*"
dom_smoothie = "*"
epub-builder = "*"
image = { version = "*", default-features = false, features = ["jpeg", "png"] }
url = "*"
serde = { version = "*", features = ["derive"] }
serde_json = "*"
reqwest = { version = "*", default-features = false }
tokio = { version = "*", features = ["rt-multi-thread", "macros", "sync"] }
