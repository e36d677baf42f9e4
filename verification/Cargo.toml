[package]
name = "ctaphid"
version = "0.1.0"
edition = "2021"
publish = false

[dependencies]
uhid-virt = "*"
tokio = { version = "*", features = ["rt", "macros", "signal", "net", "io-util", "time"] }
libc = "*"
