[package]
name = "syskit"
version = "0.1.0"
edition = "2021"
publish = false

[dependencies]
nix = { version = "=0.31.3", features = ["ptrace", "signal", "process"] }
rand = "=0.7.3"
rustyline = "=19.0.0"
clap = { version = "=4.6.7", features = ["derive"] }
crossbeam-channel = "=0.5.17"
http = "=1.5.0"
httparse = "1"
log = "=0.4.34"
pretty_env_logger = "=0.5.0"
num_cpus = "=1.17.0"
tokio = { version = "=1.54.1", features = ["full"] }
addr2line = "=0.27.1"
