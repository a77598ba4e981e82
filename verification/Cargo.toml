[package]
name = "mcstructure_materials"
version = "0.1.0"
edition = "2021"
publish = false

[dependencies]
serde_json = "1"
snailquote = "0.3"
convert_case = "0.6"
serde = { version = "1", features = ["derive"] }
bedrock-hematite-nbt = "*"
reqwest = { version = "0.12", default-features = false, features = ["json", "rustls-tls"] }
tokio = { version = "1", features = ["macros", "rt-multi-thread"] }
colored = "2"
clap = { version = "4", features = ["derive"] }
