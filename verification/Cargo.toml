[package]
name = "bms_resource_toolbox"
version = "0.1.0"
edition = "2021"
publish = false

[dependencies]
encoding_rs = "0.8"
regex = "1"
serde_json = "1"
webbrowser = "1"
rust_xlsxwriter = "*"
tokio = { version = "1", features = ["full"] }
async-trait = "0.1"
clap = { version = "4", features = ["derive"] }
dialoguer = "0.11"
tracing = "0.1"
tracing-subscriber = "0.3"
anyhow = "1"
thiserror = "2"
