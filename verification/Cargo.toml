[package]
name = "corrosion"
version = "0.1.0"
edition = "2021"
publish = false

[dependencies]
async-trait = "0.1"
bytes = "1"
compact_str = "*"
corro-api-types = "0.2.0-alpha.0"
data-encoding = "2"
eyre = "0.6"
quinn = "0.11"
quinn-plaintext = "*"
schemars = "0.8"
serde = { version = "1", features = ["derive"] }
serde_json = "1"
smallvec = "1"
thiserror = "2"
time = "0.3"
tokio = { version = "1", features = ["rt", "macros", "sync"] }
tracing = "0.1"
