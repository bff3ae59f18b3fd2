[package]
name = "island"
version = "0.1.0"
edition = "2021"
publish = false

[dependencies]
clap = { version = "4", features = ["derive"] }
clap_complete = "4"
landlock = "0.4"
landlockconfig = "0.0"
lddtree = "0.4"
thiserror = "2"
toml = "=1.1.8"
which = "8"
