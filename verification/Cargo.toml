[package]
name = "logix_type"
version = "0.1.0"
edition = "2021"
publish = false

[dependencies]
logix-vfs = "*"
smol_str = "*"
owo-colors = "*"
bstr = "*"
which = "*"

[dev-dependencies]
strip-ansi-escapes = "*"
