[package]
name = "versearch"
version = "0.1.0"
edition = "2021"
publish = false

[dependencies]
fst = { version = "0.4", features = ["levenshtein"] }
regex = "1"
itertools = "*"
prost = "*"
bytes = "1"
anyhow = "1"
envy = "*"
serde = { version = "1", features = ["derive"] }
log = "0.4"
env_logger = "*"
