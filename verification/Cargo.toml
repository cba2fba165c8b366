[package]
name = "neals"
version = "0.1.0"
edition = "2021"
publish = false

[dependencies]
anyhow = "1"
clap = { version = "4", features = ["derive"] }
clap_complete = { version = "4", features = ["unstable-dynamic"] }
comfy-table = "7"
crossterm = "0.28"
nix = { version = "0.29", features = ["sched", "signal", "user", "process", "fs"] }
owo-colors = "=4.4.0"
rnix = "=0.12.0"
rowan = "=0.15.19"
serde = { version = "1", features = ["derive"] }
serde_json = { version = "=1.0.154", features = ["preserve_order", "raw_value"] }
tokio = { version = "1", features = ["full"] }
