[package]
name = "site_link_extract"
version = "0.1.0"
edition = "2021"
publish = false

[dependencies]
url = "*"
select = "*"
anyhow = "*"
clap = { version = "*", features = ["derive"] }
futures = "*"
reqwest = { version = "*", default-features = false }
tokio = { version = "*", features = ["rt-multi-thread", "macros"] }
