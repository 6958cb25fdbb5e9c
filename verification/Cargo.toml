[package]
name = "bperf"
version = "0.1.0"
edition = "2021"
publish = false

[dependencies]
anyhow = "1"
clap = { version = "4", features = ["derive"] }
crossterm = "0.29"
form_urlencoded = "1"
ratatui = { version = "0.30", default-features = false, features = ["crossterm"] }
serde = { version = "1", features = ["derive"] }
serde_json = "1"
serde-saphyr = "*"
sha2 = "0.10"
time = { version = "0.3", features = ["formatting", "local-offset", "macros"] }
tiny_http = "0.12"
tokio = { version = "1", features = ["rt"] }
ureq = "3"

[dev-dependencies]
tempfile = "3"
