[package]
name = "issue_escalation"
version = "0.1.0"
edition = "2021"
publish = false

[dependencies]
itertools = "*"
curl = "*"
rocksdb = "*"
serde = { version = "*", features = ["derive"] }
serde_json = "*"
