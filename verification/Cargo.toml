[package]
name = "stack_rewrite"
version = "0.1.0"
edition = "2021"
publish = false

[dependencies]
allocator-api2 = "=0.2.21"
anyhow = "=1.0.104"
bstr = "=1.13.1"
gix = { version = "=0.90.0", default-features = false, features = ["revision", "sha1"] }
