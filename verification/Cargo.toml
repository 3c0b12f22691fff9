[package]
name = "jsonschema_annotator"
version = "0.1.0"
edition = "2021"
publish = false

[dependencies]
clap = { version = "4", features = ["derive"] }
schemars = "1"
serde_json = "1"
serde_yaml = "0.9"
textwrap = "0.16"
toml_edit = "0.22"
