[package]
name = "tool_executor"
version = "0.1.0"
edition = "2021"
publish = false

[dependencies]
indexmap = "2"
regex = "1"
shell-escape = "0.1"
shlex = "1"
shellexpand = "3"
humantime = "2"
time = { version = "0.3", features = ["formatting", "parsing", "macros", "local-offset"] }
blake3 = "1"
directories = "5"
serde = { version = "1", features = ["derive"] }
serde_json = "1"
toml = "0.8"
rusqlite = { version = "0.32", features = ["bundled"] }
sqlite-vec = "0.1"
walkdir = "2"
which = "6"
thiserror = "2"
color-eyre = "0.6"
tracing = "0.1"
tracing-subscriber = { version = "0.3", features = ["env-filter"] }
ureq = { version = "2", features = ["json"] }
schemars = "1"
