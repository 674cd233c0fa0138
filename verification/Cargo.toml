[package]
name = "registry_util"
version = "0.1.0"
edition = "2021"
publish = false

[dependencies]
clap = { version = "=4.6.7", features = ["derive"] }
conduit = "=0.8.1"
conduit-router = "=0.8.0"
diesel = { version = "=2.3.14", features = ["postgres"] }
rustc-serialize = "=0.3.25"
semver = "=0.5.1"
url = "=2.5.8"
