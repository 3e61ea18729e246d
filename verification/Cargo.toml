[package]
name = "cargo-install-update"
version = "0.1.0"
edition = "2021"
publish = false

[dependencies]
git2 = { version = "*", default-features = false }
lazysort = "0.2"
regex = "1"
tabwriter = "1"
