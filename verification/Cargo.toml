[package]
name = "immutable_bank_model"
version = "0.1.0"
edition = "2021"
publish = false

[dependencies]
sha256 = { version = "1", default-features = false }
bincode = "1"
base64 = "0.21"
rand = "0.8"
indexmap = { version = "2", features = ["serde"] }
serde = { version = "1", features = ["derive"] }
serde_json = "1"
anyhow = "1"
log = "0.4"
tokio = { version = "1", features = ["full"] }
hyper = { version = "1", features = ["server", "http1"] }
hyper-util = { version = "0.1", features = ["tokio"] }
http-body-util = "0.1"
http = "1"
bytes = "1"
hyper-tungstenite = "0.13"
tokio-tungstenite = "0.21"
futures-util = { version = "0.3", features = ["sink"] }
clap = { version = "4", features = ["derive"] }
clap-verbosity-flag = "2"
tracing = "0.1"
tracing-subscriber = "0.3"
mime_guess = "2"
include_dir = "0.7"
