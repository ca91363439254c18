[package]
name = "warc"
version = "0.1.0"
edition = "2021"
publish = false

[dependencies]
chrono = "=0.4.45"
getrandom = "=0.4.3"
libflate = "=2.3.2"
uuid = { version = "=1.27.0", features = ["v4"] }
