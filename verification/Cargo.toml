[package]
name = "sequencer"
version = "0.1.0"
edition = "2021"
publish = false

[dependencies]
pricelevel = "=0.6.0"
thiserror = "=2.0.21"
tokio = { version = "=1.54.1", default-features = false, features = ["rt", "sync"] }
