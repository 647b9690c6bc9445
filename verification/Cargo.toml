[package]
name = "radical_search"
version = "0.1.0"
edition = "2021"
publish = false

[dependencies]
kradical_parsing = "*"
serde_json = "1"
colored = "2"
argparse = "0.2"
atty = "0.2"
libc = "0.2"
ureq = { version = "2", features = ["json"] }
