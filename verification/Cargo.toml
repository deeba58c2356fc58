[package]
name = "sfbp"
version = "0.1.0"
edition = "2021"
publish = false

[dependencies]
chrono = "0.4"
clap = { version = "4", features = ["derive"] }
exitcode = "1"
fern = "*"
log = "0.4"
walkdir = "2"
