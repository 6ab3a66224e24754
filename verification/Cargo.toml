[package]
name = "hydra_saves"
version = "0.1.0"
edition = "2021"
publish = false

[dependencies]
rusty-leveldb = "*"
tempfile = "*"
fs_extra = "*"
dirs = "*"
serde = { version = "*", features = ["derive"] }
serde_json = "*"
serde_yaml = "*"
tar = "*"
tokio = { version = "*", features = ["fs", "macros", "rt-multi-thread"] }
reqwest = { version = "*", default-features = false, features = ["json"] }
uuid = { version = "*", features = ["v4"] }
hostname = "*"
anyhow = "*"
