[package]
name = "python_ext"
version = "0.1.0"
edition = "2021"
publish = false

[dependencies]
anyhow = "1"
clap = { version = "4", default-features = false, features = ["derive", "std", "help", "usage", "error-context"] }
futures-util = { version = "0.3", default-features = false, features = ["sink", "std"] }
pyo3 = { version = "0.20", default-features = false, features = ["auto-initialize"] }
rmp-serde = "=1.1.2"
serde = { version = "1", features = ["derive"] }
serde_json = "1"
tokio = { version = "1", default-features = false, features = ["macros", "rt-multi-thread", "sync", "fs"] }
tokio-tungstenite = "0.21"
