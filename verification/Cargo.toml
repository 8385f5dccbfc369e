[package]
name = "squashfs_reader"
version = "0.1.0"
edition = "2021"
publish = false

[dependencies]
async-compression = { version = "*", features = ["tokio", "zlib", "zstd", "xz"] }
futures = "*"
tokio = { version = "*", features = ["io-util", "fs", "rt", "rt-multi-thread", "sync", "macros"] }
clap = { version = "*", features = ["derive"] }
libc = "*"
deadpool = "*"
memmap2 = "*"
anyhow = "*"
