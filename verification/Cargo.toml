[package]
name = "blog_dns_d"
version = "0.1.0"
edition = "2021"
publish = false

[dependencies]
zerocopy = "0.7"
async-std = "1"
tokio = { version = "1", features = ["macros", "rt-multi-thread"] }
clap = { version = "4", features = ["derive"] }
env_logger = "0.10"
log = "0.4"
