[package]
name = "casefiles"
version = "0.1.0"
edition = "2021"
publish = false

[dependencies]
reqwest = { version = "*", default-features = false }
select = "*"
tokio = { version = "*", features = ["rt-multi-thread", "macros"] }
