[package]
name = "domain_check"
version = "0.1.0"
edition = "2021"
publish = false

[dependencies]
anyhow = "1"
async-graphql = "7"
hickory-resolver = "0.24"
serde_json = "1"
tokio = { version = "1", features = ["macros", "rt-multi-thread"] }
trust-dns-resolver = "0.23"
warp = "0.3"
