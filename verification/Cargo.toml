[package]
name = "deet"
version = "0.1.0"
edition = "2021"
publish = false

[dependencies]
clap = { version = "=4.6.7", features = ["derive"] }
gimli = "=0.34.0"
http = "=1.5.0"
httparse = "1"
log = "=0.4.34"
nix = { version = "=0.31.3", features = ["ptrace", "signal", "process"] }
num_cpus = "=1.17.0"
object = "=0.40.0"
pretty_env_logger = "=0.5.0"
rand = "=0.8.8"
rustyline = "=19.0.0"
tokio = { version = "=1.54.1", features = ["rt-multi-thread", "macros", "net", "time", "sync", "io-util"] }
