[package]
name = "wp_lang"
version = "0.1.0"
edition = "2021"
publish = false

[dependencies]
base64 = "0.22"
serde = { version = "1", features = ["derive"] }
serde_json = "1"
wildmatch = "*"
mailchecker = "*"
phone = "*"
url = "2"
winnow = "0.7"
wp-model-core = "*"
wp-parse-api = "*"
bytes = "1"
toml = "*"
glob = "*"
anyhow = "1"
rand = "0.9"
chrono = "0.4"
strfmt = "*"
thiserror = "*"
smol_str = "*"
once_cell = "1"
log = "0.4"
