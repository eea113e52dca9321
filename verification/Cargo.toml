[package]
name = "diff_test"
version = "0.1.0"
edition = "2021"
publish = false

[dependencies]
ansi-to-html = "*"
anyhow = "1"
base64 = "0.22"
clap = { version = "4", features = ["derive"] }
dashmap = "6"
html-escape = "*"
html-minifier = "*"
ignore = "0.4"
indexmap = { version = "2", features = ["serde"] }
jsonpath_lib = "*"
lol_html = "2"
prettydiff = { version = "*", default-features = false }
rayon = "1"
regex = "1"
serde = { version = "1", features = ["derive"] }
serde_json = "1"
sha2 = "0.10"
tiny_http = "*"
url = { version = "2", features = ["serde"] }
