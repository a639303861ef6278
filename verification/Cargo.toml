[package]
name = "rsdb_patcher"
version = "0.1.0"
edition = "2021"
publish = false

[dependencies]
roead = { version = "=1.0.0", default-features = false, features = ["byml", "yaml"] }
rustc-hash = "*"
thiserror = "*"
