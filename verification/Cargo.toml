[package]
name = "depgraph"
version = "0.1.0"
edition = "2021"
publish = false

[dependencies]
anyhow = "*"
axum = "*"
cargo_metadata = "*"
console = "*"
hyper-util = { version = "*", features = ["client", "client-legacy", "http1", "tokio"] }
open = "*"
petgraph = "*"
serde = { version = "*", features = ["derive"] }
tokio = { version = "*", features = ["rt", "macros", "net"] }
tower-http = { version = "*", features = ["cors", "fs"] }
