[package]
name = "cli_compose"
version = "0.1.0"
edition = "2021"
publish = false

[dependencies]
convert_case = "*"
syn = { version = "1", features = ["full"] }
quote = "1"
proc-macro2 = "1"
bae = "0.1"
thiserror = "1"
