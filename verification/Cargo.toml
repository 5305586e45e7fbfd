[package]
name = "branchless"
version = "0.1.0"
edition = "2021"
publish = false

[dependencies]
cursive = { version = "*", default-features = false }
git2 = { version = "*", default-features = false }
eyre = "*"
