[package]
name = "ttd-gdbserver"
version = "0.1.0"
edition = "2021"
publish = false

[dependencies]
clap = { version = "4", features = ["derive"] }
ctrlc = "3"
env_logger = "0.11"
gdbstub = "0.7"
gdbstub_arch = "0.3"
log = "0.4"
quick-xml = "*"
thiserror = "2"
