[package]
name = "kz"
version = "0.2.0"
edition = "2021"
publish = false

[dependencies]
memchr = "2"
encoding_rs = "0.8"
globset = "0.4"
walkdir = "2"
clap = { version = "4", features = ["derive"] }
clap_complete = "4"
serde = { version = "1", features = ["derive"] }
serde_json = "1"
atty = "0.2"
memmap2 = "0.9"
rayon = "1"
