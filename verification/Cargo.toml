[package]
name = "git_submit"
version = "0.1.0"
edition = "2021"
publish = false

[dependencies]
git2 = { version = "*", default-features = false }
getopts = "*"
email = "*"
hyper = { version = "*", features = ["client", "http1"] }

[dev-dependencies]
tempdir = "*"
