[package]
name = "summarizer"
version = "0.1.0"
edition = "2021"
publish = false

[dependencies]
unicode-segmentation = "1"
serde = { version = "1", features = ["derive"] }
tokio = { version = "1", features = ["rt", "time"] }
reqwest = { version = "0.12", features = ["json"] }
dotenv = "0.15"
pdf-extract = "*"

[dev-dependencies]
regex = "1"
