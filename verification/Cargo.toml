[package]
name = "licenses"
version = "0.1.0"
edition = "2021"
publish = false

[dependencies]
anyhow = "1"
cargo_metadata = "*"
clap = { version = "4", features = ["derive"] }
colored = "*"
ctrlc = "*"
indicatif = { version = "*", features = ["rayon"] }
itertools = "*"
rayon = "*"
serde = { version = "1", features = ["derive"] }
serde_json = "1"
spdx = { version = "*", features = ["detection-inline-cache"] }
tabled = "*"
terminal_size = "*"
ureq = { version = "3", features = ["json"] }
url = "2"
