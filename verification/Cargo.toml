[package]
name = "mailsync"
version = "0.1.0"
edition = "2021"
publish = false

[dependencies]
mail-parser = "*"
ahash = "*"
bb8 = "*"
regex = "*"

[dev-dependencies]
serde_json = "*"
