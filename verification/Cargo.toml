[package]
name = "jdw_sc"
version = "0.1.0"
edition = "2021"
publish = false

[dependencies]
regex = "*"
rosc = "*"
serde = { version = "*", features = ["derive"] }
serde_json = "*"
log = "*"
simple_logger = "*"
ctrlc = "*"
home = "*"
subprocess = "*"
zmq = "*"
