[package]
name = "nym-client"
version = "0.1.0"
edition = "2021"
publish = false

[dependencies]
clap = "2.33"
dotenv = "0.15"
futures = "0.3"
itertools = "0.8"
log = "0.4"
pretty_env_logger = "0.3"
rand = "0.7"
sphinx-packet = "0.1"
