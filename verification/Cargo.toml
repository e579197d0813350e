[package]
name = "spaghetti"
version = "0.1.0"
edition = "2021"
publish = false

[dependencies]
clap = { version = "4", features = ["derive"] }
indexmap = "2"
rayon = "1"
regex = "1"
rustpython-ast = { version = "0.4", features = ["unparse", "visitor"] }
rustpython-parser = "0.4"
serde = { version = "1", features = ["derive"] }
serde_json = "1"
serde_yaml = "0.9"
toml = "*"
walkdir = "2"
