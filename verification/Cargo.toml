[package]
name = "lecture_analyzer"
version = "0.1.0"
edition = "2021"
publish = false

[dependencies]
anyhow = "1"
clap = { version = "4", features = ["derive"] }
printpdf = { version = "0.5", default-features = false }
