[package]
name = "plainly"
version = "0.1.0"
edition = "2021"
publish = false

[dependencies]
sha2 = "0.10"
textwrap = "0.16"
owo-colors = "4"
directories = "5"
serde = { version = "1", features = ["derive"] }
serde_json = "1"
clap = { version = "4", features = ["derive", "env"] }
reqwest = { version = "0.12", default-features = false, features = ["json", "rustls-tls"] }
tokio = { version = "1", features = ["macros", "rt-multi-thread"] }
async-trait = "0.1"
thiserror = "2"
