[package]
name = "gobi_lib"
version = "0.1.0"
edition = "2021"
publish = false

[dependencies]
toml = "*"
toml_edit = "*"
handlebars = "*"
serde = { version = "*", features = ["derive"] }
sharedlib = "*"
clap = "*"
tempfile = "*"
