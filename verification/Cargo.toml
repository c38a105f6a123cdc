[package]
name = "sqlite3_editor"
version = "0.1.0"
edition = "2021"
publish = false

[dependencies]
sqlparser = "=0.41.0"
regex = "=1.13.1"
rmp-serde = "=1.3.1"
rusqlite = { version = "=0.32.1", features = ["bundled", "functions", "load_extension"] }
serde = { version = "=1.0.229", features = ["derive"] }
serde_json = "=1.0.154"
csv = "=1.4.0"
base64 = "=0.22.1"
percent-encoding = "=2.3.2"
rust_xlsxwriter = "*"

[dev-dependencies]
tempfile = "=3.27.0"
