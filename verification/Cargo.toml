[package]
name = "torrent_summary"
version = "0.1.0"
edition = "2021"
publish = false

[dependencies]
sha1 = "*"
ansi_term = "*"
pretty_env_logger = "*"
