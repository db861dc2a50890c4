[package]
name = "dua"
version = "0.1.0"
edition = "2021"
publish = false

[dependencies]
arrow-array = "*"
arrow-schema = "*"
parquet = { version = "*", default-features = false, features = ["arrow"] }
env_logger = "*"
log = "*"
rayon = "*"
rustix = { version = "*", features = ["fs"] }
serde = { version = "*", features = ["derive"] }
serde_json = "*"
windows-sys = { version = "*", features = ["Win32_Foundation", "Win32_Storage_FileSystem"] }

[dev-dependencies]
tempfile = "*"
