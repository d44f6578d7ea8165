[package]
name = "unzip"
version = "0.1.0"
edition = "2021"
publish = false

[dependencies]
chrono = "0.4"
itertools = "*"
serde = { version = "1", features = ["derive"] }
serde_json = "1"
zip = "*"
tar = "0.4"
flate2 = "1"
bzip2 = "*"
xz2 = { version = "0.1", features = ["static"] }
sevenz-rust = "*"
unrar = "*"
thiserror = "1"
