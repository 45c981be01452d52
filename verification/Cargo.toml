[package]
name = "repo_manager"
version = "0.1.0"
edition = "2021"
publish = false

[dependencies]
anstyle = "1"
anyhow = "1"
clap = { version = "4", features = ["derive", "env"] }
directories = "6"
env_logger = "0.11"
getrandom = "0.3"
jsonschema = { version = "0.30", default-features = false }
log = "0.4"
prost = "0.13"
rusqlite = { version = "0.32", features = ["bundled"] }
serde = { version = "1", features = ["derive"] }
serde_json = "1"
signal-hook = "0.3"
url = "2"
which = "7"
