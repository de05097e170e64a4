[package]
name = "vb_manager"
version = "0.1.0"
edition = "2021"
publish = false

[dependencies]
uuid = { version = "=1.29.0", features = ["v4", "serde"] }
serde = { version = "=1.0.229", features = ["derive"] }
serde_json = "=1.0.154"
hyphenation = { version = "=0.8.4", features = ["embed_all"] }
html_parser = "=0.7.0"
url = "=2.5.8"
chrono = { version = "=0.4.45", default-features = false, features = ["alloc", "std"] }
regex = "=1.13.1"
html5ever = "=0.39.0"
markup5ever_rcdom = "=0.39.0"
yrs = "=0.27.4"
hayagriva = "=0.10.1"
argon2 = { version = "0.5", features = ["std"] }
rand = "0.9"
