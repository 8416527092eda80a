[package]
name = "dmv_api"
version = "0.1.0"
edition = "2021"
publish = false

[dependencies]
chrono = "*"
fern = { version = "*", features = ["colored"] }
log = "*"
reqwest = { version = "*", features = ["json"] }
serde = { version = "*", features = ["derive"] }
serde_json = { version = "*", features = ["preserve_order"] }
tokio = { version = "*", features = ["macros", "rt-multi-thread", "time"] }
twrs-sms = "*"
url = "*"
