[package]
name = "music_server"
version = "0.1.0"
edition = "2021"
publish = false

[dependencies]
regex = "1"
percent-encoding = "2"
dirs = "*"
actix-web = "3"
dotenv = "*"
walkdir = "2"
toml = "*"
serde = { version = "1", features = ["derive"] }
log = "0.4"
log4rs = "*"
image = "*"
path-slash = "*"
ffmpeg4 = "*"
