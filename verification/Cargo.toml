[package]
name = "qaqh-workspace"
version = "0.1.0"
edition = "2021"
publish = false

[dependencies]
git2 = "*"
globset = "0.4"
grep-regex = "0.1"
grep-searcher = "0.1"
hex = "0.4"
ignore = "0.4"
image = { version = "0.25", default-features = false, features = ["png", "jpeg", "gif", "webp", "bmp", "tiff"] }
libc = "0.2"
log = "0.4"
regex = "1"
ropey = "1"
serde = { version = "1", features = ["derive"] }
serde_json = "1"
sha2 = "0.10"
similar = "2"
ureq = { version = "3", features = ["json"] }

[dev-dependencies]
tempfile = "3"
