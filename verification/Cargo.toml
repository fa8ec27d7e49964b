[package]
name = "tfpin"
version = "0.1.0"
edition = "2021"
publish = false

[dependencies]
hcl-rs = "*"
toml = "*"
serde = { version = "1", features = ["derive"] }
clap = { version = "4", features = ["derive"] }
globwalk = "*"
