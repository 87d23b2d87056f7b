[package]
name = "dashstream"
version = "0.1.0"
edition = "2021"
publish = false

[dependencies]
num_cpus = "=1.17.0"
clap = "4"
ctrlc = "3"
futures = "0.3"
log = "0.4"
tokio = { version = "1", features = ["rt-multi-thread", "macros", "time"] }
tempfile = "3"
warp = { version = "0.3", features = ["tls"] }
reqwest = { version = "*", default-features = false }
openssl = "0.10"
