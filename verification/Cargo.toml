[package]
name = "archidoc"
version = "0.1.0"
edition = "2021"
publish = false

[dependencies]
syn = { version = "2", features = ["full"] }
quote = "1"
clap = { version = "4", features = ["derive"] }
walkdir = "2"
