[package]
name = "voxfont"
version = "0.1.0"
edition = "2021"
publish = false

[dependencies]
ratatui = "0.29"
rustyline = "15"
tempfile = "3"
zip = { version = "2", default-features = false, features = ["deflate"] }
