[package]
name = "cargo_update"
version = "0.1.0"
edition = "2021"
publish = false

[dependencies]
semver = "=1.0.28"
url = "=2.5.8"
hex = "=0.4.3"
json-deserializer = "=0.4.4"
git2 = { version = "=0.21.0", default-features = false, features = ["cred"] }
curl = { version = "=0.4.51", default-features = false }
toml = "=1.1.8"
serde = { version = "=1.0.229", features = ["derive"] }
clap = { version = "=4.6.7", features = ["cargo", "env"] }
chrono = "=0.4.45"
home = "=0.5.12"
whoami = "=1.6.1"
tabwriter = "=1.4.1"
lazysort = "=0.2.1"
regex = "=1.13.1"
