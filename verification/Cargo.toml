[package]
name = "cargo_ohrs"
version = "0.1.0"
edition = "2021"
publish = false

[dependencies]
anyhow = "1"
bpaf = "0.9"
cargo_metadata = "*"
owo-colors = "*"
proc-macro2 = "1"
quote = "1"
regex = "1"
serde = { version = "1", features = ["derive"] }
serde_json = "1"
sha2 = "0.10"
