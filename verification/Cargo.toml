[package]
name = "hammerfest_autosplitter"
version = "0.1.0"
edition = "2021"
publish = false

[dependencies]
dlmalloc = { version = "0.2.14", features = ["global"] }
flate2 = "1.1.10"
