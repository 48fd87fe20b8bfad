[package]
name = "ditto"
version = "0.1.0"
edition = "2021"
publish = false

[dependencies]
regex = "=1.13.1"
egg = "=0.9.5"
serde = { version = "=1.0.229", features = ["derive"] }
serde_json = "=1.0.154"
toml = "=0.5.11"
semver = { version = "=1.0.28", features = ["serde"] }
convert_case = "=0.6.0"
console = "0.15"
shlex = "1"
