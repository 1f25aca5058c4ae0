[package]
name = "filetoolkit"
version = "0.1.0"
edition = "2021"
publish = false

[dependencies]
md5 = "0.7"
sha1 = "0.10"
sha2 = "0.10"
blake3 = "1"
hex = "0.4"
serde = { version = "1", features = ["derive"] }
serde_json = "1"
walkdir = "2"
zip = { version = "2", default-features = false, features = ["deflate", "aes-crypto"] }
flate2 = "1"
tar = "0.4"
lopdf = "0.34"
uuid = { version = "1", features = ["v4"] }
rayon = "1"
image = { version = "0.25", default-features = false, features = ["jpeg", "png", "webp"] }
