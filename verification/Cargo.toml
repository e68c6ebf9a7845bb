[package]
name = "stonksfich"
version = "0.1.0"
edition = "2021"
publish = false

[dependencies]
chess = "=3.2.0"
colored = "=3.1.1"
licheszter = { version = "=0.5.2", features = ["challenges"] }
tokio = { version = "=1.53.2", features = ["macros", "rt-multi-thread"] }
tokio-stream = "=0.1.19"
