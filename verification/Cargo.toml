[package]
name = "grpcrash"
version = "0.1.0"
edition = "2021"
publish = false

[dependencies]
prost = "*"
prost-reflect = "*"
serde = { version = "1", features = ["derive"] }
serde_yaml = "*"
anyhow = "1"
clap = { version = "4", features = ["derive"] }
tracing-subscriber = { version = "0.3", features = ["env-filter"] }
libafl = { version = "*", default-features = false }

[dev-dependencies]
prost-types = "*"
